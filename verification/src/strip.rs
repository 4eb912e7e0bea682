//! Removal of color escape sequences from a line.
//!
//! An escape sequence is a maximal substring that begins with the ESC control
//! character (0x1b) and ends at the next ASCII letter `m`, both delimiters
//! included. Stripping removes every such substring; an ESC with no later `m`
//! consumes the rest of the line. The scan keeps one bit of state: whether the
//! position is inside a sequence.

use vstd::prelude::*;

verus! {

/// Whether a character at a position with the given in-sequence state is kept
/// by stripping: only characters outside a sequence that do not open one.
pub open spec fn keeps_char(c: char, in_seq: bool) -> bool {
    !in_seq && c != '\x1b'
}

/// The in-sequence state after reading one character in the given state:
/// `m` leaves a sequence, ESC opens one, anything else changes nothing.
pub open spec fn state_after_char(c: char, in_seq: bool) -> bool {
    if in_seq {
        c != 'm'
    } else {
        c == '\x1b'
    }
}

/// The stripped form of `s`, scanned starting in the given in-sequence state.
pub open spec fn strip_from(s: Seq<char>, in_seq: bool) -> Seq<char>
    decreases s.len(),
{
    if s.len() == 0 {
        Seq::empty()
    } else {
        let head = if keeps_char(s[0], in_seq) {
            seq![s[0]]
        } else {
            Seq::<char>::empty()
        };
        head + strip_from(s.drop_first(), state_after_char(s[0], in_seq))
    }
}

/// The stripped form of a whole line: the scan starts outside any sequence.
pub open spec fn strip(s: Seq<char>) -> Seq<char> {
    strip_from(s, false)
}

/// The in-sequence state after scanning all of `s` from the given state.
pub open spec fn state_after(s: Seq<char>, in_seq: bool) -> bool
    decreases s.len(),
{
    if s.len() == 0 {
        in_seq
    } else {
        state_after(s.drop_first(), state_after_char(s[0], in_seq))
    }
}

/// Extending the input by one character extends the stripped output by that
/// character's contribution under the state reached at the end of the input.
proof fn lemma_strip_from_push(s: Seq<char>, c: char, in_seq: bool)
    ensures
        keeps_char(c, state_after(s, in_seq)) ==> strip_from(s.push(c), in_seq) == strip_from(
            s,
            in_seq,
        ).push(c),
        !keeps_char(c, state_after(s, in_seq)) ==> strip_from(s.push(c), in_seq) == strip_from(
            s,
            in_seq,
        ),
        state_after(s.push(c), in_seq) == state_after_char(c, state_after(s, in_seq)),
    decreases s.len(),
{
    if s.len() == 0 {
        reveal_with_fuel(strip_from, 2);
        reveal_with_fuel(state_after, 2);
        assert(s.push(c).drop_first() =~= Seq::<char>::empty());
        assert(s.push(c)[0] == c);
        if keeps_char(c, in_seq) {
            assert(strip_from(s.push(c), in_seq) =~= strip_from(s, in_seq).push(c));
        } else {
            assert(strip_from(s.push(c), in_seq) =~= strip_from(s, in_seq));
        }
    } else {
        assert(s.push(c).drop_first() =~= s.drop_first().push(c));
        assert(s.push(c)[0] == s[0]);
        lemma_strip_from_push(s.drop_first(), c, state_after_char(s[0], in_seq));
        if keeps_char(c, state_after(s, in_seq)) {
            assert(strip_from(s.push(c), in_seq) =~= strip_from(s, in_seq).push(c));
        } else {
            assert(strip_from(s.push(c), in_seq) =~= strip_from(s, in_seq));
        }
    }
}

/// Returns `line` with every escape sequence removed: every maximal substring
/// starting with ESC and ending at the next `m` (or at the end of the line).
pub fn trim_line(line: &str) -> (r: String)
    ensures
        r@ == strip(line@),
{
    let mut r = String::new();
    let mut in_seq = false;
    let len = line.unicode_len();
    let mut i: usize = 0;
    while i < len
        invariant
            i <= len,
            len == line@.len(),
            r@ == strip_from(line@.subrange(0, i as int), false),
            in_seq == state_after(line@.subrange(0, i as int), false),
        decreases len - i,
    {
        let c = line.get_char(i);
        proof {
            lemma_strip_from_push(line@.subrange(0, i as int), line@[i as int], false);
            assert(line@.subrange(0, i as int + 1) =~= line@.subrange(0, i as int).push(
                line@[i as int],
            ));
        }
        if in_seq {
            if c == 'm' {
                in_seq = false;
            }
        } else if c == '\x1b' {
            in_seq = true;
        } else {
            let seg = line.substring_char(i, i + 1);
            r.append(seg);
            proof {
                assert(seg@ =~= seq![line@[i as int]]);
                assert(r@ =~= strip_from(line@.subrange(0, i as int), false).push(
                    line@[i as int],
                ));
            }
        }
        i = i + 1;
    }
    proof {
        assert(line@.subrange(0, len as int) =~= line@);
    }
    r
}

/// A line without any ESC character is left unchanged by stripping.
pub proof fn lemma_strip_no_escape(s: Seq<char>)
    requires
        forall|i: int| 0 <= i < s.len() ==> s[i] != '\x1b',
    ensures
        strip(s) == s,
    decreases s.len(),
{
    if s.len() == 0 {
        assert(strip(s) =~= s);
    } else {
        assert(forall|i: int| 0 <= i < s.drop_first().len() ==> s.drop_first()[i] != '\x1b');
        lemma_strip_no_escape(s.drop_first());
        assert(strip(s) =~= s);
    }
}

/// The stripped output never contains an ESC character: kept characters are
/// exactly those outside a sequence that do not open one.
proof fn lemma_strip_from_output_no_escape(s: Seq<char>, in_seq: bool)
    ensures
        forall|i: int|
            0 <= i < strip_from(s, in_seq).len() ==> strip_from(s, in_seq)[i] != '\x1b',
    decreases s.len(),
{
    if s.len() > 0 {
        let tail = strip_from(s.drop_first(), state_after_char(s[0], in_seq));
        lemma_strip_from_output_no_escape(s.drop_first(), state_after_char(s[0], in_seq));
        if keeps_char(s[0], in_seq) {
            assert forall|i: int| 0 <= i < strip_from(s, in_seq).len() implies strip_from(
                s,
                in_seq,
            )[i] != '\x1b' by {
                if i == 0 {
                    assert(strip_from(s, in_seq)[0] == s[0]);
                } else {
                    assert(strip_from(s, in_seq)[i] == tail[i - 1]);
                }
            }
        } else {
            assert(strip_from(s, in_seq) =~= tail);
        }
    }
}

/// Stripping is idempotent: a stripped line contains no ESC character, so a
/// second pass leaves it unchanged.
pub proof fn lemma_strip_idempotent(s: Seq<char>)
    ensures
        strip(strip(s)) == strip(s),
{
    lemma_strip_from_output_no_escape(s, false);
    lemma_strip_no_escape(strip(s));
}

} // verus!
