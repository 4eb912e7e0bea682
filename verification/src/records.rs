//! Grouping of raw diagnostic lines into records, and their replay in reverse
//! order of closing.
//!
//! Each incoming raw line is classified by the first character of its stripped
//! form: a blank stripped line separates records, a line whose stripped form
//! starts with an ASCII letter is a title line, anything else is a
//! continuation line. Title lines, and lines that open a record, are echoed to
//! the live output at once; every non-blank line is appended to the open
//! record. At end of stream, if any record was closed, a separator rule is
//! emitted, then the closed records most-recently-closed first (each followed
//! by a blank line), then the lines of the still-open record, if any.

use vstd::prelude::*;

use crate::strip::strip;
use crate::strip::trim_line;

verus! {

/// How a raw line acts on the grouping state machine, judged from its
/// stripped form.
pub enum LineClass {
    /// The stripped line is empty: a record separator.
    Blank,
    /// The stripped line starts with an ASCII letter: a title line.
    Title,
    /// The stripped line starts with any other character.
    Continuation,
}

/// Whether `c` is an ASCII letter, which marks a title line.
pub open spec fn is_title_char(c: char) -> bool {
    ('a' as u32 <= c as u32 && c as u32 <= 'z' as u32) || ('A' as u32 <= c as u32 && c as u32
        <= 'Z' as u32)
}

/// The class of a line whose stripped form is `stripped`.
pub open spec fn classify(stripped: Seq<char>) -> LineClass {
    if stripped.len() == 0 {
        LineClass::Blank
    } else if is_title_char(stripped[0]) {
        LineClass::Title
    } else {
        LineClass::Continuation
    }
}

/// Classifies an already-stripped line by its first character.
pub fn classify_line(stripped: &str) -> (c: LineClass)
    ensures
        c == classify(stripped@),
{
    if stripped.unicode_len() == 0 {
        LineClass::Blank
    } else {
        let first = stripped.get_char(0);
        let u = first as u32;
        if ('a' as u32 <= u && u <= 'z' as u32) || ('A' as u32 <= u && u <= 'Z' as u32) {
            LineClass::Title
        } else {
            LineClass::Continuation
        }
    }
}

/// One step of the grouping state machine on the raw line `line`: the new
/// closed records, the new open record, and whether the line is echoed live.
///
/// A blank stripped line closes a non-empty open record and is never echoed.
/// Any other line is appended to the open record; it is echoed when it is a
/// title line or when it opens the record.
pub open spec fn step(
    closed: Seq<Seq<Seq<char>>>,
    open_rec: Seq<Seq<char>>,
    line: Seq<char>,
) -> (Seq<Seq<Seq<char>>>, Seq<Seq<char>>, bool) {
    let stripped = strip(line);
    if stripped.len() == 0 {
        if open_rec.len() > 0 {
            (closed.push(open_rec), Seq::<Seq<char>>::empty(), false)
        } else {
            (closed, open_rec, false)
        }
    } else {
        (closed, open_rec.push(line), classify(stripped) is Title || open_rec.len() == 0)
    }
}

/// The closed records replayed most-recently-closed first, each record's
/// lines in original order and followed by one blank line.
pub open spec fn replay_of(closed: Seq<Seq<Seq<char>>>) -> Seq<Seq<char>>
    decreases closed.len(),
{
    if closed.len() == 0 {
        Seq::empty()
    } else {
        replay_of(closed.drop_first()) + closed.first() + seq![Seq::<char>::empty()]
    }
}

/// The sixty-dash separator rule printed before the replay.
pub open spec fn separator_line() -> Seq<char> {
    Seq::new(60, |i: int| '-')
}

/// Everything printed at end of stream: nothing if no record was closed,
/// otherwise the separator rule, the closed records most-recently-closed
/// first, and the lines of the still-open record.
pub open spec fn end_of_stream_output(
    closed: Seq<Seq<Seq<char>>>,
    open_rec: Seq<Seq<char>>,
) -> Seq<Seq<char>> {
    if closed.len() == 0 {
        Seq::empty()
    } else {
        seq![separator_line()] + replay_of(closed) + open_rec
    }
}

/// The run of the state machine over a whole stream of raw lines, starting
/// from the empty state: the closed records, the open record, and the lines
/// echoed live, in order.
pub open spec fn run_lines(lines: Seq<Seq<char>>) -> (
    Seq<Seq<Seq<char>>>,
    Seq<Seq<char>>,
    Seq<Seq<char>>,
)
    decreases lines.len(),
{
    if lines.len() == 0 {
        (Seq::<Seq<Seq<char>>>::empty(), Seq::<Seq<char>>::empty(), Seq::<Seq<char>>::empty())
    } else {
        let prev = run_lines(lines.drop_last());
        let stepped = step(prev.0, prev.1, lines.last());
        (
            stepped.0,
            stepped.1,
            if stepped.2 {
                prev.2.push(lines.last())
            } else {
                prev.2
            },
        )
    }
}

/// The input lines whose stripped form is non-empty, in order of arrival:
/// exactly those that the state machine appends to a record.
pub open spec fn non_blank_lines(lines: Seq<Seq<char>>) -> Seq<Seq<char>>
    decreases lines.len(),
{
    if lines.len() == 0 {
        Seq::empty()
    } else if strip(lines.last()).len() > 0 {
        non_blank_lines(lines.drop_last()).push(lines.last())
    } else {
        non_blank_lines(lines.drop_last())
    }
}

/// No line is lost, reordered or duplicated by grouping: after any run, the
/// closed records laid end to end, followed by the open record, are exactly
/// the non-blank input lines in order of arrival.
pub proof fn lemma_run_keeps_lines(lines: Seq<Seq<char>>)
    ensures
        run_lines(lines).0.flatten() + run_lines(lines).1 == non_blank_lines(lines),
    decreases lines.len(),
{
    if lines.len() == 0 {
        assert(run_lines(lines).0.flatten() + run_lines(lines).1 =~= non_blank_lines(lines));
    } else {
        lemma_run_keeps_lines(lines.drop_last());
        let prev = run_lines(lines.drop_last());
        let line = lines.last();
        if strip(line).len() == 0 {
            if prev.1.len() > 0 {
                prev.0.lemma_flatten_push(prev.1);
                assert(run_lines(lines).0.flatten() + run_lines(lines).1 =~= prev.0.flatten()
                    + prev.1);
            }
        } else {
            assert(run_lines(lines).0.flatten() + run_lines(lines).1 =~= (prev.0.flatten()
                + prev.1).push(line));
        }
    }
}

/// Pushing an element onto a vector of strings pushes its view onto the
/// deep view.
pub(crate) proof fn lemma_deep_view_push_str(u: Vec<String>, v: Vec<String>, x: String)
    requires
        v@ == u@.push(x),
    ensures
        v.deep_view() == u.deep_view().push(x@),
{
    assert(v.deep_view() =~= u.deep_view().push(x@));
}

/// Pushing a record onto the vector of closed records pushes its deep view
/// onto the deep view.
proof fn lemma_deep_view_push_rec(u: Vec<Vec<String>>, v: Vec<Vec<String>>, x: Vec<String>)
    requires
        v@ == u@.push(x),
    ensures
        v.deep_view() == u.deep_view().push(x.deep_view()),
{
    assert(v.deep_view() =~= u.deep_view().push(x.deep_view()));
}

/// The grouping state machine: the records closed so far, oldest first, and
/// the currently open record.
pub struct Reorderer {
    closed: Vec<Vec<String>>,
    current: Vec<String>,
}

impl Reorderer {
    /// The closed records, oldest first, as sequences of lines.
    pub closed spec fn records(&self) -> Seq<Seq<Seq<char>>> {
        self.closed.deep_view()
    }

    /// The lines of the currently open record, in order of arrival.
    pub closed spec fn open_record(&self) -> Seq<Seq<char>> {
        self.current.deep_view()
    }

    /// A fresh state machine with no closed record and no open record.
    pub fn new() -> (r: Reorderer)
        ensures
            r.records() == Seq::<Seq<Seq<char>>>::empty(),
            r.open_record() == Seq::<Seq<char>>::empty(),
    {
        let r = Reorderer { closed: Vec::new(), current: Vec::new() };
        proof {
            assert(r.records() =~= Seq::<Seq<Seq<char>>>::empty());
            assert(r.open_record() =~= Seq::<Seq<char>>::empty());
        }
        r
    }

    /// Feeds one raw line to the state machine and says whether the caller
    /// should echo it to the live output at once.
    pub fn push_line(&mut self, line: String) -> (echo: bool)
        ensures
            ({
                let stepped = step(old(self).records(), old(self).open_record(), line@);
                &&& final(self).records() == stepped.0
                &&& final(self).open_record() == stepped.1
                &&& echo == stepped.2
            }),
    {
        let stripped = trim_line(line.as_str());
        match classify_line(stripped.as_str()) {
            LineClass::Blank => {
                if self.current.len() > 0 {
                    let mut finished: Vec<String> = Vec::new();
                    core::mem::swap(&mut finished, &mut self.current);
                    proof {
                        assert(self.current.deep_view() =~= Seq::<Seq<char>>::empty());
                    }
                    let ghost old_closed = self.closed;
                    self.closed.push(finished);
                    proof {
                        lemma_deep_view_push_rec(old_closed, self.closed, finished);
                    }
                }
                false
            },
            LineClass::Title => {
                let ghost old_current = self.current;
                self.current.push(line);
                proof {
                    lemma_deep_view_push_str(old_current, self.current, line);
                }
                true
            },
            LineClass::Continuation => {
                let echo: bool = self.current.len() == 0;
                let ghost old_current = self.current;
                self.current.push(line);
                proof {
                    lemma_deep_view_push_str(old_current, self.current, line);
                }
                echo
            },
        }
    }

    /// Everything to print at end of stream, in order: nothing if no record
    /// was closed, otherwise the separator rule, the closed records
    /// most-recently-closed first (each followed by a blank line), and the
    /// lines of the still-open record.
    pub fn finish(&self) -> (out: Vec<String>)
        ensures
            out.deep_view() == end_of_stream_output(self.records(), self.open_record()),
    {
        let mut out: Vec<String> = Vec::new();
        proof {
            assert(out.deep_view() =~= Seq::<Seq<char>>::empty());
        }
        if self.closed.len() == 0 {
            return out;
        }
        let n = self.closed.len();
        out.push(separator_string());
        proof {
            assert(out.deep_view() =~= seq![separator_line()] + replay_of(
                self.records().subrange(n as int, n as int),
            ));
        }
        let mut k = n;
        while k > 0
            invariant
                k <= n,
                n == self.closed.len(),
                out.deep_view() == seq![separator_line()] + replay_of(
                    self.records().subrange(k as int, n as int),
                ),
            decreases k,
        {
            k = k - 1;
            let ghost base = out.deep_view();
            let record = &self.closed[k];
            let mut j: usize = 0;
            while j < record.len()
                invariant
                    j <= record.len(),
                    record == &self.closed[k as int],
                    k < n == self.closed.len(),
                    out.deep_view() == base + record.deep_view().subrange(0, j as int),
                decreases record.len() - j,
            {
                let ghost old_out = out;
                out.push(record[j].clone());
                proof {
                    lemma_deep_view_push_str(old_out, out, record[j as int]);
                    assert(base + record.deep_view().subrange(0, j as int + 1) =~= (base
                        + record.deep_view().subrange(0, j as int)).push(record@[j as int]@));
                }
                j = j + 1;
            }
            let ghost old_out = out;
            let blank = String::new();
            out.push(blank);
            proof {
                lemma_deep_view_push_str(old_out, out, blank);
            }
            proof {
                let all = self.records();
                assert(record.deep_view().subrange(0, record.deep_view().len() as int)
                    =~= record.deep_view());
                assert(all.subrange(k as int, n as int).drop_first() =~= all.subrange(
                    k as int + 1,
                    n as int,
                ));
                assert(out.deep_view() =~= seq![separator_line()] + replay_of(
                    all.subrange(k as int, n as int),
                ));
            }
        }
        proof {
            assert(self.records().subrange(0, n as int) =~= self.records());
        }
        let mut j: usize = 0;
        let ghost base = out.deep_view();
        while j < self.current.len()
            invariant
                j <= self.current.len(),
                out.deep_view() == base + self.open_record().subrange(0, j as int),
            decreases self.current.len() - j,
        {
            let ghost old_out = out;
            out.push(self.current[j].clone());
            proof {
                lemma_deep_view_push_str(old_out, out, self.current[j as int]);
                assert(base + self.open_record().subrange(0, j as int + 1) =~= (base
                    + self.open_record().subrange(0, j as int)).push(self.current@[j as int]@));
            }
            j = j + 1;
        }
        proof {
            assert(self.open_record().subrange(0, self.current.len() as int) =~= self.open_record());
        }
        out
    }
}

/// Runs the whole grouping state machine over `lines` and returns the lines
/// echoed live while reading, and everything printed at end of stream.
pub fn process_lines(lines: &Vec<String>) -> (r: (Vec<String>, Vec<String>))
    ensures
        ({
            let run = run_lines(lines.deep_view());
            &&& r.0.deep_view() == run.2
            &&& r.1.deep_view() == end_of_stream_output(run.0, run.1)
        }),
{
    let mut live: Vec<String> = Vec::new();
    let mut machine = Reorderer::new();
    proof {
        assert(live.deep_view() =~= Seq::<Seq<char>>::empty());
    }
    let mut i: usize = 0;
    while i < lines.len()
        invariant
            i <= lines.len(),
            machine.records() == run_lines(lines.deep_view().subrange(0, i as int)).0,
            machine.open_record() == run_lines(lines.deep_view().subrange(0, i as int)).1,
            live.deep_view() == run_lines(lines.deep_view().subrange(0, i as int)).2,
        decreases lines.len() - i,
    {
        proof {
            assert(lines.deep_view().subrange(0, i as int + 1).drop_last() =~= lines.deep_view()
                .subrange(0, i as int));
            assert(lines.deep_view().subrange(0, i as int + 1).last() == lines@[i as int]@);
        }
        let line = lines[i].clone();
        let echo = machine.push_line(line);
        if echo {
            let ghost old_live = live;
            let echoed = lines[i].clone();
            live.push(echoed);
            proof {
                lemma_deep_view_push_str(old_live, live, echoed);
            }
        }
        i = i + 1;
    }
    proof {
        assert(lines.deep_view().subrange(0, lines@.len() as int) =~= lines.deep_view());
    }
    let replay = machine.finish();
    (live, replay)
}

/// Builds the sixty-dash separator rule.
fn separator_string() -> (r: String)
    ensures
        r@ == separator_line(),
{
    let mut r = String::new();
    let mut i: usize = 0;
    while i < 60
        invariant
            i <= 60,
            r@ == Seq::new(i as nat, |j: int| '-'),
        decreases 60 - i,
    {
        r.append("-");
        proof {
            reveal_strlit("-");
            assert(r@ =~= Seq::new(i as nat + 1, |j: int| '-'));
        }
        i = i + 1;
    }
    r
}

} // verus!
