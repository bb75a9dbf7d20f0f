//! Stream reassembly engine: turns a sequence of arbitrarily chunked
//! byte buffers into discrete messages. A `<` in the decoded text is a
//! candidate start of a header; the message grammar decides whether it
//! really is one, and a failed candidate is reclassified as literal body
//! text one character at a time.
use vstd::prelude::*;
use vstd::string::{StrSliceExecFns, StringExecFns};

use crate::error::SyslogParseError;
use crate::protocol::{lemma_msg_end_at_bounds, msg_at, msg_end_at};
use crate::text::{find_char, find_from, lemma_find_from};
use crate::trusted::{lossy_decode, now_millis, utf8_lossy};

verus! {

/// Messages emitted per ingestion call unless configured otherwise.
pub const DEFAULT_MAX_SIZE: usize = 1000;

/// Milliseconds of inactivity after which a pending partial message is
/// flushed by the extraction path.
pub const IDLE_FLUSH_MS: i64 = 500;

/// Outcome of a scan: the emitted messages in order, the pending text of
/// the message still being assembled, and the unscanned remainder.
pub struct ScanOut {
    pub logs: Seq<Seq<char>>,
    pub pending: Seq<char>,
    pub carry: Seq<char>,
}

/// The views of a sequence of owned strings.
pub open spec fn views(xs: Seq<String>) -> Seq<Seq<char>> {
    xs.map_values(|s: String| s@)
}

/// One whole scan over `text` from position `cur`, with `pending` text
/// already accumulated and `logs` already emitted. At each `<` the
/// message grammar is consulted: on a match the accumulated pending text
/// is emitted (when non-empty) and the matched header becomes the new
/// pending text; on a failure the `<` is literal text and the scan
/// resumes one character later. Scanning stops when no `<` remains or
/// when `max` messages have been emitted; the rest is the carry.
pub open spec fn scan(
    pending: Seq<char>,
    text: Seq<char>,
    cur: int,
    logs: Seq<Seq<char>>,
    max: int,
) -> ScanOut
    decreases text.len() - cur when 0 <= cur <= text.len()
{
    match find_from(text, cur, '<') {
        None => ScanOut { logs, pending, carry: text.subrange(cur, text.len() as int) },
        Some(p) => {
            proof {
                lemma_find_from(text, cur, '<');
                lemma_msg_end_at_bounds(text, p);
            }
            let pend2 = pending + text.subrange(cur, p);
            match msg_end_at(text, p) {
                Some(h) => {
                    let header = text.subrange(p, h);
                    let logs2 = if pend2.len() > 0 {
                        logs.push(pend2)
                    } else {
                        logs
                    };
                    if logs2.len() >= max {
                        ScanOut { logs: logs2, pending: header, carry: text.subrange(h, text.len() as int) }
                    } else {
                        scan(header, text, h, logs2, max)
                    }
                },
                None => scan(pend2.push('<'), text, p + 1, logs, max),
            }
        },
    }
}

/// A scan only appends to the already emitted messages: they stay an
/// unchanged prefix of its output.
pub proof fn lemma_scan_appends(
    pending: Seq<char>,
    text: Seq<char>,
    cur: int,
    logs: Seq<Seq<char>>,
    max: int,
)
    requires
        0 <= cur <= text.len(),
    ensures
        ({
            let o = scan(pending, text, cur, logs, max);
            o.logs.len() >= logs.len() && o.logs.take(logs.len() as int) == logs
        }),
    decreases text.len() - cur,
{
    lemma_find_from(text, cur, '<');
    let o = scan(pending, text, cur, logs, max);
    match find_from(text, cur, '<') {
        None => {
            assert(o.logs.take(logs.len() as int) =~= logs);
        },
        Some(p) => {
            lemma_msg_end_at_bounds(text, p);
            let pend2 = pending + text.subrange(cur, p);
            match msg_end_at(text, p) {
                Some(h) => {
                    let header = text.subrange(p, h);
                    let logs2 = if pend2.len() > 0 {
                        logs.push(pend2)
                    } else {
                        logs
                    };
                    assert(logs2.take(logs.len() as int) =~= logs);
                    if logs2.len() >= max {
                        assert(o.logs == logs2);
                    } else {
                        lemma_scan_appends(header, text, h, logs2, max);
                        assert(o.logs.take(logs2.len() as int) == logs2);
                        assert(o.logs.take(logs.len() as int) =~= logs);
                    }
                },
                None => {
                    lemma_scan_appends(pend2.push('<'), text, p + 1, logs, max);
                },
            }
        },
    }
}

/// Two scans differing only in their emission bound agree until the
/// smaller bound is reached: the tighter scan emits exactly the prefix
/// of what the looser one would emit.
pub proof fn lemma_scan_cap(
    pending: Seq<char>,
    text: Seq<char>,
    cur: int,
    logs: Seq<Seq<char>>,
    m1: int,
    m2: int,
)
    requires
        0 <= cur <= text.len(),
        logs.len() < m1 <= m2,
    ensures
        ({
            let o1 = scan(pending, text, cur, logs, m1);
            let o2 = scan(pending, text, cur, logs, m2);
            if o2.logs.len() >= m1 {
                o1.logs.len() == m1 && o1.logs == o2.logs.take(m1)
            } else {
                o1 == o2
            }
        }),
    decreases text.len() - cur,
{
    lemma_find_from(text, cur, '<');
    let o1 = scan(pending, text, cur, logs, m1);
    let o2 = scan(pending, text, cur, logs, m2);
    match find_from(text, cur, '<') {
        None => {
            assert(o1 == o2);
        },
        Some(p) => {
            lemma_msg_end_at_bounds(text, p);
            let pend2 = pending + text.subrange(cur, p);
            match msg_end_at(text, p) {
                Some(h) => {
                    let header = text.subrange(p, h);
                    let logs2 = if pend2.len() > 0 {
                        logs.push(pend2)
                    } else {
                        logs
                    };
                    if logs2.len() >= m2 {
                        assert(logs2.len() == m1 && m1 == m2);
                        assert(o1.logs == o2.logs.take(m1)) by {
                            assert(o2.logs.take(m1) =~= o2.logs);
                        }
                    } else if logs2.len() >= m1 {
                        assert(o1.logs == logs2 && logs2.len() == m1);
                        lemma_scan_appends(header, text, h, logs2, m2);
                        assert(o2.logs.take(m1) == logs2);
                    } else {
                        lemma_scan_cap(header, text, h, logs2, m1, m2);
                    }
                },
                None => {
                    lemma_scan_cap(pend2.push('<'), text, p + 1, logs, m1, m2);
                },
            }
        },
    }
}

/// The per-call bound is exact: whenever the buffered input holds at
/// least `max` complete messages — in that a scan under a larger bound
/// would emit that many — a scan bounded to `max` emits exactly the
/// first `max` of them, the remainder staying in the pending text and
/// the carry.
pub proof fn lemma_batch_cap(pending: Seq<char>, text: Seq<char>, max: int, bigger: int)
    requires
        1 <= max <= bigger,
        scan(pending, text, 0, Seq::<Seq<char>>::empty(), bigger).logs.len() >= max,
    ensures
        scan(pending, text, 0, Seq::<Seq<char>>::empty(), max).logs.len() == max,
        scan(pending, text, 0, Seq::<Seq<char>>::empty(), max).logs == scan(
            pending,
            text,
            0,
            Seq::<Seq<char>>::empty(),
            bigger,
        ).logs.take(max),
{
    lemma_scan_cap(pending, text, 0, Seq::<Seq<char>>::empty(), max, bigger);
}

/// No character is lost or invented by a scan: the emitted messages,
/// the new pending text and the carry together spell exactly the prior
/// state followed by the scanned text.
pub proof fn lemma_scan_conserves(
    pending: Seq<char>,
    text: Seq<char>,
    cur: int,
    logs: Seq<Seq<char>>,
    max: int,
)
    requires
        0 <= cur <= text.len(),
    ensures
        ({
            let o = scan(pending, text, cur, logs, max);
            o.logs.flatten() + o.pending + o.carry == logs.flatten() + pending + text.subrange(
                cur,
                text.len() as int,
            )
        }),
    decreases text.len() - cur,
{
    lemma_find_from(text, cur, '<');
    let tl = text.len() as int;
    let o = scan(pending, text, cur, logs, max);
    match find_from(text, cur, '<') {
        None => {},
        Some(p) => {
            lemma_msg_end_at_bounds(text, p);
            let pend2 = pending + text.subrange(cur, p);
            match msg_end_at(text, p) {
                Some(h) => {
                    let header = text.subrange(p, h);
                    let body = text.subrange(h, tl);
                    let logs2 = if pend2.len() > 0 {
                        logs.push(pend2)
                    } else {
                        logs
                    };
                    assert(logs2.flatten() =~= logs.flatten() + pend2) by {
                        if pend2.len() > 0 {
                            logs.lemma_flatten_push(pend2);
                        } else {
                            assert(pend2.len() == 0);
                        }
                    }
                    if logs2.len() < max {
                        lemma_scan_conserves(header, text, h, logs2, max);
                    }
                    assert(o.logs.flatten() + o.pending + o.carry == logs2.flatten() + header
                        + body);
                    assert(logs2.flatten() + header + body =~= logs.flatten() + pending
                        + text.subrange(cur, tl));
                },
                None => {
                    lemma_scan_conserves(pend2.push('<'), text, p + 1, logs, max);
                    assert(o.logs.flatten() + o.pending + o.carry == logs.flatten() + pend2.push(
                        '<',
                    ) + text.subrange(p + 1, tl));
                    assert(logs.flatten() + pend2.push('<') + text.subrange(p + 1, tl)
                        =~= logs.flatten() + pending + text.subrange(cur, tl));
                },
            }
        },
    }
}

/// Whether pending text ends with an unresolved candidate marker.
pub open spec fn ends_lt(p: Seq<char>) -> bool {
    p.len() > 0 && p.last() == '<'
}

/// A reassembly stream: the pending text of the message currently being
/// assembled, the unscanned bytes carried from the previous chunk, the
/// per-call emission bound, and the time of the last ingestion.
#[derive(Debug)]
pub struct MsgStream {
    pub last_msg: String,
    pub res: Vec<u8>,
    pub max_size: usize,
    pub last_parse_time: i64,
}

/// The bytes a call works on: the carried bytes and the new chunk, with
/// the marker byte put back in front when the pending text ended with an
/// unresolved `<`.
pub open spec fn stream_bytes(m: MsgStream, value: Seq<u8>) -> Seq<u8> {
    if ends_lt(m.last_msg@) {
        seq![60u8] + m.res@ + value
    } else {
        m.res@ + value
    }
}

/// The pending text a call starts from: the stored pending text, with an
/// unresolved trailing `<` removed (it is retried as part of the bytes).
pub open spec fn stream_pending(m: MsgStream) -> Seq<char> {
    if ends_lt(m.last_msg@) {
        m.last_msg@.drop_last()
    } else {
        m.last_msg@
    }
}

/// Exec test for a pending text ending in an unresolved marker.
fn ends_lt_exec(s: &String) -> (b: bool)
    ensures
        b == ends_lt(s@),
{
    let n = s.as_str().unicode_len();
    n > 0 && s.as_str().get_char(n - 1) == '<'
}

/// Whether at least the idle-flush interval has elapsed between `last`
/// and `now`, computed without overflow.
fn timeout_due(now: i64, last: i64) -> (b: bool)
    ensures
        b == (now - last >= IDLE_FLUSH_MS),
{
    match now.checked_sub(last) {
        Some(d) => d >= IDLE_FLUSH_MS,
        None => now > last,
    }
}

/// Appends a copy of `src` to `dst`.
fn append_bytes(dst: &mut Vec<u8>, src: &Vec<u8>)
    ensures
        final(dst)@ == old(dst)@ + src@,
{
    let n = src.len();
    let mut k: usize = 0;
    while k < n
        invariant
            k <= n,
            n == src@.len(),
            dst@ == old(dst)@ + src@.subrange(0, k as int),
        decreases n - k,
    {
        let ghost pre = dst@;
        dst.push(src[k]);
        proof {
            assert(dst@ =~= old(dst)@ + src@.subrange(0, k + 1 as int));
        }
        k = k + 1;
    }
    proof {
        assert(src@.subrange(0, n as int) =~= src@);
    }
}

/// The scan loop shared by bulk ingestion and single extraction: runs
/// `scan` on the decoded text, returning the emitted messages, the new
/// pending text, and the position where scanning stopped.
fn scan_exec(text: &str, pending0: &str, max: usize) -> (out: (Vec<String>, String, usize))
    ensures
        ({
            let o = scan(pending0@, text@, 0, Seq::<Seq<char>>::empty(), max as int);
            &&& views(out.0@) == o.logs
            &&& out.1@ == o.pending
            &&& out.2 <= text@.len()
            &&& text@.subrange(out.2 as int, text@.len() as int) == o.carry
        }),
{
    let n = text.unicode_len();
    let mut pend: String = pending0.to_owned();
    let mut logs: Vec<String> = Vec::new();
    let mut cur: usize = 0;
    let ghost o0 = scan(pending0@, text@, 0, Seq::<Seq<char>>::empty(), max as int);
    proof {
        assert(views(logs@) =~= Seq::<Seq<char>>::empty());
    }
    loop
        invariant
            cur <= n,
            n == text@.len(),
            o0 == scan(pending0@, text@, 0, Seq::<Seq<char>>::empty(), max as int),
            o0 == scan(pend@, text@, cur as int, views(logs@), max as int),
        decreases n - cur,
    {
        match find_char(text, cur, '<') {
            None => {
                return (logs, pend, cur);
            },
            Some(p) => {
                let piece = text.substring_char(cur, p);
                let ghost pend_pre = pend@;
                pend.append(piece);
                proof {
                    lemma_msg_end_at_bounds(text@, p as int);
                }
                match msg_at(text, p) {
                    Some(h) => {
                        let header = text.substring_char(p, h).to_owned();
                        let ghost logs_pre = views(logs@);
                        let ghost pend2 = pend@;
                        if !pend.as_str().is_empty() {
                            logs.push(pend);
                            proof {
                                assert(views(logs@) =~= logs_pre.push(pend2));
                            }
                        }
                        pend = header;
                        if logs.len() >= max {
                            return (logs, pend, h);
                        }
                        cur = h;
                    },
                    None => {
                        let ghost pend2 = pend@;
                        pend.append("<");
                        proof {
                            reveal_strlit("<");
                            assert(pend@ =~= pend2.push('<'));
                        }
                        cur = p + 1;
                    },
                }
            },
        }
    }
}

impl Default for MsgStream {
    /// A fresh stream: nothing pending, nothing carried, the default
    /// emission bound, and the clock read as the last activity.
    fn default() -> (r: Self)
        ensures
            r.last_msg@ == Seq::<char>::empty(),
            r.res@ == Seq::<u8>::empty(),
            r.max_size == DEFAULT_MAX_SIZE,
    {
        MsgStream {
            last_msg: String::new(),
            res: Vec::new(),
            max_size: DEFAULT_MAX_SIZE,
            last_parse_time: now_millis(),
        }
    }
}

impl MsgStream {
    /// Sets the per-call emission bound.
    pub fn set_max_size(&mut self, size: usize)
        ensures
            final(self).max_size == size,
            final(self).last_msg == old(self).last_msg,
            final(self).res == old(self).res,
            final(self).last_parse_time == old(self).last_parse_time,
    {
        self.max_size = size;
    }

    /// Drops all pending text and carried bytes.
    pub fn clear(&mut self)
        ensures
            final(self).last_msg@ == Seq::<char>::empty(),
            final(self).res@ == Seq::<u8>::empty(),
            final(self).max_size == old(self).max_size,
            final(self).last_parse_time == old(self).last_parse_time,
    {
        self.last_msg = String::new();
        self.res = Vec::new();
    }

    /// Bulk ingestion: decodes the carried bytes together with the new
    /// chunk, scans for messages, and returns the completed ones in
    /// order — at most `max_size` of them, the rest staying buffered.
    /// The call never fails; the `Result` mirrors the shape of the
    /// collaborator interface.
    pub fn multi_parse(&mut self, value: Vec<u8>) -> (r: Result<Vec<String>, SyslogParseError>)
        ensures
            ({
                let text = lossy_decode(stream_bytes(*old(self), value@));
                let o = scan(
                    stream_pending(*old(self)),
                    text,
                    0,
                    Seq::<Seq<char>>::empty(),
                    old(self).max_size as int,
                );
                &&& r matches Ok(logs) && views(logs@) == o.logs
                &&& final(self).last_msg@ == o.pending
                &&& final(self).res@ == vstd::utf8::encode_utf8(o.carry)
                &&& final(self).max_size == old(self).max_size
            }),
    {
        let now = now_millis();
        self.last_parse_time = now;
        let flag = ends_lt_exec(&self.last_msg);
        if flag {
            let ln = self.last_msg.as_str().unicode_len();
            let trimmed = self.last_msg.as_str().substring_char(0, ln - 1).to_owned();
            proof {
                assert(trimmed@ =~= old(self).last_msg@.drop_last());
            }
            self.last_msg = trimmed;
        }
        let mut buf: Vec<u8> = Vec::new();
        if flag {
            buf.push(60u8);
            proof {
                assert(buf@ =~= seq![60u8]);
            }
        }
        append_bytes(&mut buf, &self.res);
        append_bytes(&mut buf, &value);
        proof {
            assert(buf@ =~= stream_bytes(*old(self), value@));
        }
        let text = utf8_lossy(buf.as_slice());
        let (logs, pend, cur) = scan_exec(text.as_str(), self.last_msg.as_str(), self.max_size);
        self.last_msg = pend;
        let tn = text.as_str().unicode_len();
        let carry = text.as_str().substring_char(cur, tn);
        self.res = carry.as_bytes_vec();
        Ok(logs)
    }

    /// Single extraction with the clock supplied by the caller: scans
    /// the buffered state without new input. On a match it returns one
    /// completed message and re-arms the state with the new header as
    /// pending text. Otherwise, if at least the idle-flush interval has
    /// passed since the last ingestion and pending text remains, it
    /// flushes the pending text with the carried remainder and clears
    /// the state; else nothing is returned and the state just advances.
    pub fn next_at(&mut self, now_ms: i64) -> (r: Option<String>)
        ensures
            ({
                let text = lossy_decode(stream_bytes(*old(self), Seq::<u8>::empty()));
                let o = scan(stream_pending(*old(self)), text, 0, Seq::<Seq<char>>::empty(), 1);
                &&& final(self).max_size == old(self).max_size
                &&& final(self).last_parse_time == old(self).last_parse_time
                &&& if o.logs.len() >= 1 {
                    r matches Some(m) && m@ == o.logs[0] && final(self).last_msg@ == o.pending
                        && final(self).res@ == vstd::utf8::encode_utf8(o.carry)
                } else if now_ms - old(self).last_parse_time >= IDLE_FLUSH_MS && o.pending.len()
                    > 0 {
                    r matches Some(m) && m@ == o.pending + o.carry && final(self).last_msg@
                        == Seq::<char>::empty() && final(self).res@ == Seq::<u8>::empty()
                } else {
                    r is None && final(self).last_msg@ == o.pending && final(self).res@
                        == vstd::utf8::encode_utf8(o.carry)
                }
            }),
    {
        let flag = ends_lt_exec(&self.last_msg);
        if flag {
            let ln = self.last_msg.as_str().unicode_len();
            let trimmed = self.last_msg.as_str().substring_char(0, ln - 1).to_owned();
            proof {
                assert(trimmed@ =~= old(self).last_msg@.drop_last());
            }
            self.last_msg = trimmed;
        }
        let mut buf: Vec<u8> = Vec::new();
        if flag {
            buf.push(60u8);
            proof {
                assert(buf@ =~= seq![60u8]);
            }
        }
        append_bytes(&mut buf, &self.res);
        proof {
            assert(buf@ =~= stream_bytes(*old(self), Seq::<u8>::empty()));
        }
        let text = utf8_lossy(buf.as_slice());
        let (mut logs, pend, cur) = scan_exec(text.as_str(), self.last_msg.as_str(), 1);
        self.last_msg = pend;
        let tn = text.as_str().unicode_len();
        let carry = text.as_str().substring_char(cur, tn);
        self.res = carry.as_bytes_vec();
        if logs.len() >= 1 {
            let m = logs.remove(0);
            return Some(m);
        }
        if timeout_due(now_ms, self.last_parse_time) && !self.last_msg.as_str().is_empty() {
            let mut flush = self.last_msg.as_str().to_owned();
            flush.append(carry);
            self.clear();
            return Some(flush);
        }
        None
    }

    /// Single extraction against the wall clock: whatever the clock
    /// returns, either one scanned message comes out with the state
    /// re-armed, or the idle flush fires, or nothing is available yet.
    pub fn next(&mut self) -> (r: Option<String>)
        ensures
            ({
                let text = lossy_decode(stream_bytes(*old(self), Seq::<u8>::empty()));
                let o = scan(stream_pending(*old(self)), text, 0, Seq::<Seq<char>>::empty(), 1);
                &&& final(self).max_size == old(self).max_size
                &&& final(self).last_parse_time == old(self).last_parse_time
                &&& if o.logs.len() >= 1 {
                    r matches Some(m) && m@ == o.logs[0] && final(self).last_msg@ == o.pending
                        && final(self).res@ == vstd::utf8::encode_utf8(o.carry)
                } else {
                    (r matches Some(m) && m@ == o.pending + o.carry && final(self).last_msg@
                        == Seq::<char>::empty() && final(self).res@ == Seq::<u8>::empty() && o.pending.len() > 0)
                    || (r is None && final(self).last_msg@ == o.pending && final(self).res@
                        == vstd::utf8::encode_utf8(o.carry))
                }
            }),
    {
        let now = now_millis();
        self.next_at(now)
    }
}

} // verus!
