//! Detecting the end of a request head in a byte stream.
//!
//! The head of a request ends at the first occurrence of the four-byte
//! terminator CR LF CR LF. A whole buffer can be tested with
//! [`head_complete`]; an incremental scanner, [`HeadScanner`], tracks how
//! many bytes of the terminator the stream currently matches, so the end
//! of the head is found without re-scanning the accumulated buffer after
//! every read. [`lemma_scanner_finds_terminator`] states that the scanner
//! reports completion exactly when the terminator has appeared.

use vstd::prelude::*;

use crate::ascii::{CR, LF};

verus! {

/// The byte `b` of the terminator CR LF CR LF, for `b < 4`.
pub open spec fn terminator_byte(i: int) -> u8 {
    if i == 0 {
        CR
    } else if i == 1 {
        LF
    } else if i == 2 {
        CR
    } else {
        LF
    }
}

/// The last four bytes of `s` are exactly CR LF CR LF.
pub open spec fn ends_with_terminator(s: Seq<u8>) -> bool {
    &&& s.len() >= 4
    &&& s[s.len() - 4] == CR
    &&& s[s.len() - 3] == LF
    &&& s[s.len() - 2] == CR
    &&& s[s.len() - 1] == LF
}

/// The terminator occurs somewhere in `s`.
pub open spec fn terminator_seen(s: Seq<u8>) -> bool {
    exists|i: int| 4 <= i <= s.len() && ends_with_terminator(#[trigger] s.take(i))
}

/// One transition of the scanner: from a state (how many terminator bytes
/// are currently matched) on reading byte `b`. State 4 means the head is
/// complete and is absorbing.
pub open spec fn scan_step(m: nat, b: u8) -> nat {
    if m >= 4 {
        4
    } else if b == terminator_byte(m as int) {
        m + 1
    } else if b == CR {
        1
    } else {
        0
    }
}

/// The scanner state after reading all of `s`, starting from state 0.
pub open spec fn scan_state(s: Seq<u8>) -> nat
    decreases s.len(),
{
    if s.len() == 0 {
        0
    } else {
        scan_step(scan_state(s.drop_last()), s.last())
    }
}

/// The longest proper prefix of the terminator that is a suffix of `s`.
pub open spec fn terminator_match_len(s: Seq<u8>) -> nat {
    if s.len() >= 3 && s[s.len() - 3] == CR && s[s.len() - 2] == LF && s[s.len() - 1] == CR {
        3
    } else if s.len() >= 2 && s[s.len() - 2] == CR && s[s.len() - 1] == LF {
        2
    } else if s.len() >= 1 && s[s.len() - 1] == CR {
        1
    } else {
        0
    }
}

/// While the terminator has not appeared, the scanner state equals the
/// length of the longest terminator prefix that the stream currently
/// ends with; once it has appeared, the state is pinned at 4.
pub proof fn lemma_scan_state(s: Seq<u8>)
    ensures
        terminator_seen(s) ==> scan_state(s) == 4,
        !terminator_seen(s) ==> scan_state(s) == terminator_match_len(s),
    decreases s.len(),
{
    if s.len() == 0 {
        assert(!terminator_seen(s));
    } else {
        let t = s.drop_last();
        let b = s.last();
        lemma_scan_state(t);
        assert(t.push(b) =~= s);
        assert(scan_state(s) == scan_step(scan_state(t), b));
        if terminator_seen(t) {
            let i = choose|i: int| 4 <= i <= t.len() && ends_with_terminator(#[trigger] t.take(i));
            assert(s.take(i) =~= t.take(i));
            assert(terminator_seen(s));
        } else {
            if ends_with_terminator(s) {
                assert(s.take(s.len() as int) =~= s);
                assert(terminator_seen(s));
                assert(terminator_match_len(t) == 3);
                assert(scan_state(s) == 4);
            } else {
                // The terminator neither occurred in `t` nor ends `s`,
                // so it has not appeared in `s` at all.
                assert forall|i: int| 4 <= i <= s.len() implies !ends_with_terminator(
                    #[trigger] s.take(i),
                ) by {
                    if i < s.len() {
                        assert(s.take(i) =~= t.take(i));
                    } else {
                        assert(s.take(i) =~= s);
                    }
                }
                assert(!terminator_seen(s));
            }
        }
    }
}

/// The scanner state, continued from state `m` over the bytes of `s`.
pub open spec fn scan_from(m: nat, s: Seq<u8>) -> nat
    decreases s.len(),
{
    if s.len() == 0 {
        m
    } else {
        scan_step(scan_from(m, s.drop_last()), s.last())
    }
}

/// Feeding a scanner chunk by chunk equals scanning the concatenation.
pub proof fn lemma_scan_from_concat(s: Seq<u8>, t: Seq<u8>)
    ensures
        scan_from(scan_state(s), t) == scan_state(s + t),
    decreases t.len(),
{
    if t.len() == 0 {
        assert(s + t =~= s);
    } else {
        lemma_scan_from_concat(s, t.drop_last());
        assert((s + t).drop_last() =~= s + t.drop_last());
        assert((s + t).last() == t.last());
    }
}

/// The scanner reports a complete head exactly when the terminator has
/// appeared in the stream.
pub proof fn lemma_scanner_finds_terminator(s: Seq<u8>)
    ensures
        scan_state(s) == 4 <==> terminator_seen(s),
{
    lemma_scan_state(s);
}

/// Incremental end-of-head scanner over a byte stream.
///
/// `matched` is how many bytes of CR LF CR LF the stream read so far
/// currently matches; 4 means the head is complete.
pub struct HeadScanner {
    pub matched: u8,
}

impl HeadScanner {
    /// The state is a valid automaton state.
    pub open spec fn wf(&self) -> bool {
        self.matched <= 4
    }

    /// A fresh scanner: nothing read, nothing matched.
    pub fn new() -> (r: HeadScanner)
        ensures
            r.wf(),
            r.matched == scan_state(Seq::<u8>::empty()),
    {
        HeadScanner { matched: 0 }
    }

    /// Advances the scanner by one byte of the stream.
    pub fn feed(&mut self, b: u8)
        requires
            old(self).wf(),
        ensures
            final(self).wf(),
            final(self).matched == scan_step(old(self).matched as nat, b),
    {
        if self.matched >= 4 {
            // complete; stay complete
        } else if (self.matched == 0 && b == CR) || (self.matched == 1 && b == LF) || (
        self.matched == 2 && b == CR) || (self.matched == 3 && b == LF) {
            self.matched = self.matched + 1;
        } else if b == CR {
            self.matched = 1;
        } else {
            self.matched = 0;
        }
    }

    /// Advances the scanner over a whole chunk.
    pub fn feed_chunk(&mut self, chunk: &[u8])
        requires
            old(self).wf(),
        ensures
            final(self).wf(),
            final(self).matched == scan_from(old(self).matched as nat, chunk@),
    {
        let mut i: usize = 0;
        while i < chunk.len()
            invariant
                i <= chunk.len(),
                self.wf(),
                self.matched == scan_from(old(self).matched as nat, chunk@.take(i as int)),
            decreases chunk.len() - i,
        {
            let ghost pre = chunk@.take(i as int);
            self.feed(chunk[i]);
            proof {
                assert(chunk@.take(i + 1 as int).drop_last() =~= pre);
            }
            i = i + 1;
        }
        proof {
            assert(chunk@.take(chunk@.len() as int) =~= chunk@);
        }
    }

    /// The head is complete: the terminator has been read.
    pub fn done(&self) -> (r: bool)
        ensures
            r == (self.matched == 4),
    {
        self.matched == 4
    }
}

/// The four-byte tail check on a whole accumulated buffer: the head is
/// complete when the buffer ends with CR LF CR LF.
pub fn head_complete(buf: &[u8]) -> (r: bool)
    ensures
        r == ends_with_terminator(buf@),
{
    let n = buf.len();
    n >= 4 && buf[n - 4] == CR && buf[n - 3] == LF && buf[n - 2] == CR && buf[n - 1] == LF
}

} // verus!
