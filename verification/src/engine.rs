//! The streaming match-and-context engine: a state machine that consumes
//! one line at a time and decides, for each, whether to buffer it as
//! possible before-context, emit it as owed after-context, or emit it as a
//! match together with any buffered before-context, while keeping at most
//! the configured number of lines in memory.

use std::collections::VecDeque;
use vstd::math::min;
use vstd::prelude::*;

use crate::config::Config;
use crate::matcher::{regex_compiles, regex_found, regex_spans, Matcher, SearchError};

verus! {

/// One record handed to the output sink.
#[derive(Debug, Clone, PartialEq, Eq)]
pub enum Emission {
    /// A line printed without highlighting, as before- or after-context.
    Plain { line_num: usize, text: String },
    /// A matching line, with the byte-offset spans to highlight.
    Matched { line_num: usize, text: String, spans: Vec<(usize, usize)> },
}

/// The mathematical form of an emission record.
pub enum EmissionModel {
    Plain { line_num: nat, text: Seq<char> },
    Matched { line_num: nat, text: Seq<char>, spans: Seq<(usize, usize)> },
}

impl View for Emission {
    type V = EmissionModel;

    open spec fn view(&self) -> EmissionModel {
        match self {
            Emission::Plain { line_num, text } => EmissionModel::Plain {
                line_num: *line_num as nat,
                text: text@,
            },
            Emission::Matched { line_num, text, spans } => EmissionModel::Matched {
                line_num: *line_num as nat,
                text: text@,
                spans: spans@,
            },
        }
    }
}

/// The line number an emission carries.
pub open spec fn emission_line_num(e: EmissionModel) -> nat {
    match e {
        EmissionModel::Plain { line_num, .. } => line_num,
        EmissionModel::Matched { line_num, .. } => line_num,
    }
}

/// The view of a sequence of emission records.
pub open spec fn emissions_model(s: Seq<Emission>) -> Seq<EmissionModel> {
    s.map_values(|e: Emission| e@)
}

/// The mutable state of a search run as it processes lines.
pub struct GrepState {
    /// The number of lines read so far; the current line's 1-based number.
    pub line_count: usize,
    /// The buffered candidates for before-context, oldest first, each with
    /// its line number.
    pub before_context_buffer: VecDeque<(usize, String)>,
    /// How many after-context lines are still owed to the most recent match.
    pub lines_after_match: usize,
    /// Whether the immediately preceding line was printed, as a match or as
    /// context.
    pub printing_block_active: bool,
}

/// The mathematical form of the run state.
pub struct StateModel {
    pub line_count: nat,
    pub buffer: Seq<(nat, Seq<char>)>,
    pub after: nat,
    pub active: bool,
}

/// The mathematical form of a before-context buffer: line numbers as
/// naturals, texts as character sequences.
pub open spec fn buffer_model(buffer: Seq<(usize, String)>) -> Seq<(nat, Seq<char>)> {
    buffer.map_values(|p: (usize, String)| (p.0 as nat, p.1@))
}

impl View for GrepState {
    type V = StateModel;

    open spec fn view(&self) -> StateModel {
        StateModel {
            line_count: self.line_count as nat,
            buffer: buffer_model(self.before_context_buffer@),
            after: self.lines_after_match as nat,
            active: self.printing_block_active,
        }
    }
}

/// The state a run starts from: no lines read, nothing buffered, no
/// after-context owed, no active printing block.
pub open spec fn init_model() -> StateModel {
    StateModel { line_count: 0, buffer: Seq::empty(), after: 0, active: false }
}

/// The emissions that flushing a before-context buffer produces: each
/// buffered line as a plain context line, oldest first.
pub open spec fn flush_model(buffer: Seq<(nat, Seq<char>)>) -> Seq<EmissionModel> {
    buffer.map_values(|p: (nat, Seq<char>)| EmissionModel::Plain { line_num: p.0, text: p.1 })
}

/// One transition of the state machine, for a line whose match status and
/// highlight spans are given: the successor state and the records emitted
/// for the line. `b` and `a` are the configured before- and after-context
/// counts.
///
/// On a match, any buffered before-context is flushed first unless the
/// preceding line was already printed, the buffer is cleared, the match is
/// emitted, and the after-context counter is refreshed to `a`. A non-match
/// while after-context is owed is emitted as context. Any other line is
/// buffered, evicting the oldest entry when the buffer would exceed `b`.
pub open spec fn spec_step(
    s: StateModel,
    is_match: bool,
    spans: Seq<(usize, usize)>,
    text: Seq<char>,
    b: nat,
    a: nat,
) -> (StateModel, Seq<EmissionModel>) {
    let n = s.line_count + 1;
    if is_match {
        let flushed = if !s.active && b > 0 {
            flush_model(s.buffer)
        } else {
            Seq::empty()
        };
        (
            StateModel { line_count: n, buffer: Seq::empty(), after: a, active: true },
            flushed.push(EmissionModel::Matched { line_num: n, text, spans }),
        )
    } else if s.after > 0 {
        (
            StateModel { line_count: n, buffer: s.buffer, after: (s.after - 1) as nat, active: true },
            seq![EmissionModel::Plain { line_num: n, text }],
        )
    } else {
        let pushed = s.buffer.push((n, text));
        let trimmed = if pushed.len() > b {
            pushed.subrange(1, pushed.len() as int)
        } else {
            pushed
        };
        (
            StateModel { line_count: n, buffer: trimmed, after: 0, active: false },
            Seq::empty(),
        )
    }
}

impl GrepState {
    /// A fresh, initialized run state.
    pub fn new() -> (s: GrepState)
        ensures
            s@ == init_model(),
    {
        let s = GrepState {
            line_count: 0,
            before_context_buffer: VecDeque::new(),
            lines_after_match: 0,
            printing_block_active: false,
        };
        proof {
            assert(s@.buffer =~= init_model().buffer);
            assert(s@ =~= init_model());
        }
        s
    }

    /// Advances the state machine by one input line and returns the records
    /// to emit for it: flushed before-context followed by the match, or one
    /// after-context line, or nothing.
    pub fn process_line(
        &mut self,
        matcher: &Matcher,
        text: String,
        before_num: usize,
        after_num: usize,
    ) -> (out: Vec<Emission>)
        requires
            old(self).line_count < usize::MAX,
        ensures
            ({
                let (s2, es) = spec_step(
                    old(self)@,
                    matcher.spec_matches(text@),
                    regex_spans(matcher.spec_pattern(), text@),
                    text@,
                    before_num as nat,
                    after_num as nat,
                );
                final(self)@ == s2 && emissions_model(out@) == es
            }),
    {
        self.line_count = self.line_count + 1;
        let is_match = matcher.matches(text.as_str());
        let mut out: Vec<Emission> = Vec::new();
        if is_match {
            let ghost buf0 = old(self)@.buffer;
            if !self.printing_block_active && before_num > 0 {
                let blen = self.before_context_buffer.len();
                let mut idx: usize = 0;
                while idx < blen
                    invariant
                        idx <= blen,
                        blen == self.before_context_buffer@.len(),
                        buffer_model(self.before_context_buffer@) == buf0,
                        self.line_count == old(self).line_count + 1,
                        self.lines_after_match == old(self).lines_after_match,
                        self.printing_block_active == old(self).printing_block_active,
                        out@.len() == idx,
                        emissions_model(out@) =~= flush_model(buf0.take(idx as int)),
                    decreases blen - idx,
                {
                    let entry = &self.before_context_buffer[idx];
                    let num = entry.0;
                    let line = entry.1.clone();
                    let ghost prev = out@;
                    out.push(Emission::Plain { line_num: num, text: line });
                    proof {
                        assert(buf0[idx as int] == (num as nat, entry.1@));
                        assert(out@.len() == idx + 1);
                        assert forall|i: int| 0 <= i < out@.len() implies emissions_model(out@)[i]
                            == flush_model(buf0.take(idx + 1))[i] by {
                            assert(flush_model(buf0.take(idx + 1))[i] == EmissionModel::Plain {
                                line_num: buf0[i].0,
                                text: buf0[i].1,
                            });
                            if i < idx {
                                assert(out@[i] == prev[i]);
                                assert(emissions_model(prev)[i] == flush_model(
                                    buf0.take(idx as int),
                                )[i]);
                            } else {
                                assert(out@[i]@ == EmissionModel::Plain {
                                    line_num: num as nat,
                                    text: entry.1@,
                                });
                            }
                        }
                        assert(emissions_model(out@) =~= flush_model(buf0.take(idx + 1)));
                    }
                    idx = idx + 1;
                }
                proof {
                    assert(buf0.take(blen as int) =~= buf0);
                }
            }
            self.before_context_buffer.clear();
            let spans = matcher.find_spans(text.as_str());
            let ghost text_v = text@;
            out.push(
                Emission::Matched { line_num: self.line_count, text, spans: spans },
            );
            self.lines_after_match = after_num;
            self.printing_block_active = true;
            proof {
                let (s2, es) = spec_step(
                    old(self)@,
                    matcher.spec_matches(text_v),
                    regex_spans(matcher.spec_pattern(), text_v),
                    text_v,
                    before_num as nat,
                    after_num as nat,
                );
                assert(self@.buffer =~= Seq::<(nat, Seq<char>)>::empty());
                assert(self@ =~= s2);
                assert(emissions_model(out@) =~= es);
            }
        } else if self.lines_after_match > 0 {
            let ghost text_v = text@;
            out.push(Emission::Plain { line_num: self.line_count, text });
            self.lines_after_match = self.lines_after_match - 1;
            self.printing_block_active = true;
            proof {
                let (s2, es) = spec_step(
                    old(self)@,
                    matcher.spec_matches(text_v),
                    regex_spans(matcher.spec_pattern(), text_v),
                    text_v,
                    before_num as nat,
                    after_num as nat,
                );
                assert(self@ =~= s2);
                assert(emissions_model(out@) =~= es);
            }
        } else {
            let ghost text_v = text@;
            self.before_context_buffer.push_back((self.line_count, text));
            if self.before_context_buffer.len() > before_num {
                self.before_context_buffer.pop_front();
            }
            self.printing_block_active = false;
            proof {
                let (s2, es) = spec_step(
                    old(self)@,
                    matcher.spec_matches(text_v),
                    regex_spans(matcher.spec_pattern(), text_v),
                    text_v,
                    before_num as nat,
                    after_num as nat,
                );
                assert(self@.buffer =~= s2.buffer);
                assert(self@ =~= s2);
                assert(emissions_model(out@) =~= es);
            }
        }
        out
    }
}

/// The mathematical form of a file's lines.
pub open spec fn lines_model(lines: Seq<String>) -> Seq<Seq<char>> {
    lines.map_values(|s: String| s@)
}

/// The state machine folded over a sequence of lines, starting from `s`:
/// the final state and everything emitted, in order. `pattern` is the
/// compiled pattern text the matcher was built with.
pub open spec fn spec_run_from(
    s: StateModel,
    pattern: Seq<char>,
    lines: Seq<Seq<char>>,
    b: nat,
    a: nat,
) -> (StateModel, Seq<EmissionModel>)
    decreases lines.len(),
{
    if lines.len() == 0 {
        (s, Seq::empty())
    } else {
        let first = lines[0];
        let (s1, out1) = spec_step(
            s,
            regex_found(pattern, first),
            regex_spans(pattern, first),
            first,
            b,
            a,
        );
        let (s2, out2) = spec_run_from(s1, pattern, lines.drop_first(), b, a);
        (s2, out1 + out2)
    }
}

/// Everything a whole run emits for a file's lines, from the fresh state.
pub open spec fn spec_search(pattern: Seq<char>, lines: Seq<Seq<char>>, b: nat, a: nat) -> Seq<
    EmissionModel,
> {
    spec_run_from(init_model(), pattern, lines, b, a).1
}

/// Folding one more line at the end of a run is one more transition.
proof fn lemma_run_from_snoc(
    s: StateModel,
    pattern: Seq<char>,
    lines: Seq<Seq<char>>,
    x: Seq<char>,
    b: nat,
    a: nat,
)
    ensures
        ({
            let (s1, o1) = spec_run_from(s, pattern, lines, b, a);
            let (s2, o2) = spec_step(s1, regex_found(pattern, x), regex_spans(pattern, x), x, b, a);
            spec_run_from(s, pattern, lines.push(x), b, a) == (s2, o1 + o2)
        }),
    decreases lines.len(),
{
    let pushed = lines.push(x);
    if lines.len() == 0 {
        assert(pushed[0] == x);
        assert(pushed.drop_first() =~= Seq::<Seq<char>>::empty());
        let (s1, o1) = spec_step(s, regex_found(pattern, x), regex_spans(pattern, x), x, b, a);
        assert(spec_run_from(s1, pattern, pushed.drop_first(), b, a) == (
            s1,
            Seq::<EmissionModel>::empty(),
        ));
        assert(spec_run_from(s, pattern, pushed, b, a) == (s1, o1 + Seq::<EmissionModel>::empty()));
        assert(o1 + Seq::<EmissionModel>::empty() =~= o1);
    } else {
        assert(pushed[0] == lines[0]);
        assert(pushed.drop_first() =~= lines.drop_first().push(x));
        let first = lines[0];
        let (s1, o1) = spec_step(
            s,
            regex_found(pattern, first),
            regex_spans(pattern, first),
            first,
            b,
            a,
        );
        lemma_run_from_snoc(s1, pattern, lines.drop_first(), x, b, a);
        let (sm, om) = spec_run_from(s1, pattern, lines.drop_first(), b, a);
        let (s2, o2) = spec_step(sm, regex_found(pattern, x), regex_spans(pattern, x), x, b, a);
        assert(o1 + (om + o2) =~= (o1 + om) + o2);
    }
}

/// Runs the whole search over the lines of a file: builds the matcher from
/// the configuration, feeds every line through the state machine in order,
/// and returns everything emitted. Fails, before looking at any line,
/// exactly when the configured pattern is rejected by the
/// regular-expression compiler.
pub fn run_search(config: &Config, lines: &Vec<String>) -> (r: Result<Vec<Emission>, SearchError>)
    ensures
        ({
            let pattern = Matcher::spec_pattern_of(
                config.query@,
                config.ignore_case,
                config.word_regexp,
            );
            &&& r is Ok <==> regex_compiles(pattern)
            &&& r is Err ==> r->Err_0 == SearchError::InvalidPattern
            &&& r is Ok ==> emissions_model(r->Ok_0@) == spec_search(
                pattern,
                lines_model(lines@),
                config.spec_before() as nat,
                config.spec_after() as nat,
            )
        }),
{
    let before_num = match config.before_context {
        Some(n) => n,
        None => 0,
    };
    let after_num = match config.after_context {
        Some(n) => n,
        None => 0,
    };
    let matcher = match Matcher::new(
        config.query.as_str(),
        config.ignore_case,
        config.word_regexp,
    ) {
        Ok(m) => m,
        Err(e) => {
            return Err(e);
        },
    };
    let ghost pattern = matcher.spec_pattern();
    let mut state = GrepState::new();
    let mut all_out: Vec<Emission> = Vec::new();
    let n = lines.len();
    let mut i: usize = 0;
    while i < n
        invariant
            i <= n,
            n == lines@.len(),
            pattern == matcher.spec_pattern(),
            (state@, emissions_model(all_out@)) == spec_run_from(
                init_model(),
                pattern,
                lines_model(lines@).take(i as int),
                before_num as nat,
                after_num as nat,
            ),
        decreases n - i,
    {
        let line = lines[i].clone();
        let ghost taken = lines_model(lines@).take(i as int);
        let ghost out_prev = all_out@;
        proof {
            assert(state@.line_count == spec_run_from(
                init_model(),
                pattern,
                taken,
                before_num as nat,
                after_num as nat,
            ).0.line_count);
            lemma_run_from_line_count(init_model(), pattern, taken, before_num as nat,
                after_num as nat);
            assert(state@.line_count == taken.len());
        }
        let mut chunk = state.process_line(&matcher, line, before_num, after_num);
        let ghost chunk0 = chunk@;
        all_out.append(&mut chunk);
        proof {
            let x = lines_model(lines@)[i as int];
            lemma_run_from_snoc(init_model(), pattern, taken, x, before_num as nat,
                after_num as nat);
            assert(taken.push(x) =~= lines_model(lines@).take(i + 1));
            assert(emissions_model(all_out@) =~= emissions_model(out_prev) + emissions_model(
                chunk0,
            ));
        }
        i = i + 1;
    }
    proof {
        assert(lines_model(lines@).take(n as int) =~= lines_model(lines@));
    }
    Ok(all_out)
}

/// The length of the longest suffix of `lines` every line of which took
/// the buffering path when the run reached it: it neither matched nor was
/// owed as after-context. These are exactly the lines read since the last
/// emitted line, or since the start of the run.
pub open spec fn quiet_suffix_len(
    pattern: Seq<char>,
    lines: Seq<Seq<char>>,
    b: nat,
    a: nat,
) -> nat
    decreases lines.len(),
{
    if lines.len() == 0 {
        0
    } else {
        let pre = lines.drop_last();
        let st = spec_run_from(init_model(), pattern, pre, b, a).0;
        if !regex_found(pattern, lines.last()) && st.after == 0 {
            1 + quiet_suffix_len(pattern, pre, b, a)
        } else {
            0
        }
    }
}

/// After any run from the fresh state, the before-context buffer holds
/// exactly the last `min(b, q)` lines, where `q` counts the lines read
/// since the last emitted line; each is tagged with its line number, in
/// order. Moreover, while after-context is owed the buffer is empty.
pub proof fn lemma_buffer_contents(pattern: Seq<char>, lines: Seq<Seq<char>>, b: nat, a: nat)
    ensures
        ({
            let st = spec_run_from(init_model(), pattern, lines, b, a).0;
            let q = min(b as int, quiet_suffix_len(pattern, lines, b, a) as int);
            &&& st.line_count == lines.len()
            &&& quiet_suffix_len(pattern, lines, b, a) <= lines.len()
            &&& st.buffer.len() == q
            &&& forall|i: int| 0 <= i < q ==> st.buffer[i] == ((
                (lines.len() - q + i + 1) as nat,
                lines[lines.len() - q + i],
            ))
            &&& (st.after > 0 ==> st.buffer.len() == 0)
        }),
    decreases lines.len(),
{
    lemma_run_from_line_count(init_model(), pattern, lines, b, a);
    if lines.len() > 0 {
        let pre = lines.drop_last();
        let x = lines.last();
        lemma_buffer_contents(pattern, pre, b, a);
        lemma_run_from_line_count(init_model(), pattern, pre, b, a);
        lemma_run_from_snoc(init_model(), pattern, pre, x, b, a);
        assert(pre.push(x) =~= lines);
        let st_pre = spec_run_from(init_model(), pattern, pre, b, a).0;
        let st = spec_run_from(init_model(), pattern, lines, b, a).0;
        let qpre = min(b as int, quiet_suffix_len(pattern, pre, b, a) as int);
        let q = min(b as int, quiet_suffix_len(pattern, lines, b, a) as int);
        if regex_found(pattern, x) {
            assert(q == 0);
        } else if st_pre.after > 0 {
            assert(st_pre.buffer.len() == 0);
            assert(q == 0);
        } else {
            let n = st_pre.line_count + 1;
            let pushed = st_pre.buffer.push((n as nat, x));
            assert(quiet_suffix_len(pattern, lines, b, a) == 1 + quiet_suffix_len(
                pattern,
                pre,
                b,
                a,
            ));
            if pushed.len() > b {
                assert(qpre == b);
                assert(q == b);
                assert(st.buffer =~= pushed.subrange(1, pushed.len() as int));
                assert forall|i: int| 0 <= i < q implies st.buffer[i] == ((
                    (lines.len() - q + i + 1) as nat,
                    lines[lines.len() - q + i],
                )) by {
                    assert(st.buffer[i] == pushed[i + 1]);
                    let k = lines.len() - q + i;
                    if i + 1 < pushed.len() - 1 {
                        assert(pushed[i + 1] == st_pre.buffer[i + 1]);
                        assert(k == pre.len() - qpre + (i + 1));
                        assert(0 <= k < pre.len());
                        assert(pre.push(x)[k] == pre[k]);
                        assert(lines[k] == pre[k]);
                    } else {
                        assert(pushed[i + 1] == (n as nat, x));
                        assert(k == lines.len() - 1);
                        assert(pre.push(x)[k] == x);
                    }
                }
            } else {
                assert(q == qpre + 1);
                assert forall|i: int| 0 <= i < q implies st.buffer[i] == ((
                    (lines.len() - q + i + 1) as nat,
                    lines[lines.len() - q + i],
                )) by {
                    let k = lines.len() - q + i;
                    if i < q - 1 {
                        assert(st.buffer[i] == st_pre.buffer[i]);
                        assert(k == pre.len() - qpre + i);
                        assert(0 <= k < pre.len());
                        assert(pre.push(x)[k] == pre[k]);
                        assert(lines[k] == pre[k]);
                    } else {
                        assert(st.buffer[i] == (n as nat, x));
                        assert(k == lines.len() - 1);
                        assert(pre.push(x)[k] == x);
                    }
                }
            }
        }
    }
}

/// Law: bounded lookback. However long the input, the before-context
/// buffer never holds more than the configured number of lines.
pub proof fn lemma_buffer_bounded(pattern: Seq<char>, lines: Seq<Seq<char>>, b: nat, a: nat)
    ensures
        spec_run_from(init_model(), pattern, lines, b, a).0.buffer.len() <= b,
{
    lemma_buffer_contents(pattern, lines, b, a);
}

/// Law: before-context bound. When a match arrives on a line that does not
/// extend an already printed block, the context emitted just before it is
/// exactly `min(b, q)` lines, where `q` is the number of lines read since
/// the last emitted line or since the start; they are the immediately
/// preceding lines, in order, followed by the match itself.
pub proof fn lemma_before_context_bound(
    pattern: Seq<char>,
    lines: Seq<Seq<char>>,
    next: Seq<char>,
    b: nat,
    a: nat,
)
    requires
        regex_found(pattern, next),
        b > 0,
        !spec_run_from(init_model(), pattern, lines, b, a).0.active,
    ensures
        ({
            let st = spec_run_from(init_model(), pattern, lines, b, a).0;
            let (st2, out) = spec_step(st, true, regex_spans(pattern, next), next, b, a);
            let q = min(b as int, quiet_suffix_len(pattern, lines, b, a) as int);
            &&& out.len() == q + 1
            &&& forall|i: int| 0 <= i < q ==> out[i] == (EmissionModel::Plain {
                line_num: ((lines.len() - q + i + 1) as nat),
                text: lines[lines.len() - q + i],
            })
            &&& out[q] == (EmissionModel::Matched {
                line_num: (lines.len() + 1) as nat,
                text: next,
                spans: regex_spans(pattern, next),
            })
        }),
{
    lemma_buffer_contents(pattern, lines, b, a);
}

/// Law: after-context bound. From a state owing `after` context lines, a
/// run of lines none of which matches emits exactly the first
/// `min(after, run length)` of them, each as a plain context line with its
/// line number, and nothing else.
pub proof fn lemma_after_context_bound(
    pattern: Seq<char>,
    st: StateModel,
    lines: Seq<Seq<char>>,
    b: nat,
    a: nat,
)
    requires
        forall|i: int| 0 <= i < lines.len() ==> !regex_found(pattern, #[trigger] lines[i]),
    ensures
        ({
            let (st2, out) = spec_run_from(st, pattern, lines, b, a);
            &&& out.len() == min(st.after as int, lines.len() as int)
            &&& forall|i: int| 0 <= i < out.len() ==> out[i] == (EmissionModel::Plain {
                line_num: (st.line_count + i + 1) as nat,
                text: lines[i],
            })
        }),
    decreases lines.len(),
{
    if lines.len() > 0 {
        let x = lines[0];
        let rest = lines.drop_first();
        assert(!regex_found(pattern, x));
        assert(forall|i: int| 0 <= i < rest.len() ==> !regex_found(
            pattern,
            #[trigger] rest[i],
        ));
        let (s1, o1) = spec_step(st, false, regex_spans(pattern, x), x, b, a);
        lemma_after_context_bound(pattern, s1, rest, b, a);
        let (st2, out2) = spec_run_from(s1, pattern, rest, b, a);
        let (_, out) = spec_run_from(st, pattern, lines, b, a);
        assert(out == o1 + out2);
        if st.after > 0 {
            assert forall|i: int| 0 <= i < out.len() implies out[i] == (EmissionModel::Plain {
                line_num: (st.line_count + i + 1) as nat,
                text: lines[i],
            }) by {
                if i == 0 {
                    assert(out[0] == o1[0]);
                } else {
                    assert(out[i] == out2[i - 1]);
                    assert(rest[i - 1] == lines[i]);
                }
            }
        }
    }
}

/// Law: a match refreshes the after-context counter to the configured
/// count, whether or not context was still owed.
pub proof fn lemma_match_refreshes_after(
    st: StateModel,
    spans: Seq<(usize, usize)>,
    text: Seq<char>,
    b: nat,
    a: nat,
)
    ensures
        spec_step(st, true, spans, text, b, a).0.after == a,
{
}

/// One transition, starting from a state whose buffered line numbers are
/// strictly increasing, all above `floor` and at most the line count,
/// emits records with strictly increasing line numbers in `(floor, count]`
/// and preserves those facts for the rest of the run.
proof fn lemma_run_from_increasing(
    pattern: Seq<char>,
    st: StateModel,
    lines: Seq<Seq<char>>,
    b: nat,
    a: nat,
    floor: nat,
)
    requires
        st.after > 0 ==> st.buffer.len() == 0,
        forall|i: int, j: int| 0 <= i < j < st.buffer.len() ==> (#[trigger] st.buffer[i]).0 < (
        #[trigger] st.buffer[j]).0,
        forall|i: int| 0 <= i < st.buffer.len() ==> floor < (#[trigger] st.buffer[i]).0
            <= st.line_count,
        floor <= st.line_count,
    ensures
        ({
            let (st2, out) = spec_run_from(st, pattern, lines, b, a);
            &&& forall|i: int, j: int| 0 <= i < j < out.len() ==> emission_line_num(
                #[trigger] out[i],
            ) < emission_line_num(#[trigger] out[j])
            &&& forall|i: int| 0 <= i < out.len() ==> floor < emission_line_num(
                #[trigger] out[i],
            ) <= st2.line_count
        }),
    decreases lines.len(),
{
    if lines.len() > 0 {
        let x = lines[0];
        let rest = lines.drop_first();
        let m = regex_found(pattern, x);
        let (s1, o1) = spec_step(st, m, regex_spans(pattern, x), x, b, a);
        let n = st.line_count + 1;
        lemma_run_from_line_count(s1, pattern, rest, b, a);
        let (st2, out2) = spec_run_from(s1, pattern, rest, b, a);
        let (_, out) = spec_run_from(st, pattern, lines, b, a);
        assert(out == o1 + out2);
        if m {
            lemma_run_from_increasing(pattern, s1, rest, b, a, n as nat);
            assert(forall|i: int| 0 <= i < o1.len() - 1 ==> emission_line_num(#[trigger] o1[i])
                == st.buffer[i].0);
            assert(emission_line_num(o1[o1.len() - 1]) == n);
        } else if st.after > 0 {
            lemma_run_from_increasing(pattern, s1, rest, b, a, n as nat);
            assert(emission_line_num(o1[0]) == n);
        } else {
            lemma_run_from_increasing(pattern, s1, rest, b, a, floor);
            assert(o1.len() == 0);
        }
        assert forall|i: int, j: int| 0 <= i < j < out.len() implies emission_line_num(
            #[trigger] out[i],
        ) < emission_line_num(#[trigger] out[j]) by {
            if j < o1.len() {
            } else if i >= o1.len() {
                assert(out[i] == out2[i - o1.len()]);
                assert(out[j] == out2[j - o1.len()]);
            } else {
                assert(out[i] == o1[i]);
                assert(out[j] == out2[j - o1.len()]);
            }
        }
        assert forall|i: int| 0 <= i < out.len() implies floor < emission_line_num(
            #[trigger] out[i],
        ) <= st2.line_count by {
            if i >= o1.len() {
                assert(out[i] == out2[i - o1.len()]);
            } else {
                assert(out[i] == o1[i]);
            }
        }
    }
}

/// Law: no line is emitted twice. Over a whole run the line numbers of the
/// emitted records are strictly increasing, so a line already printed as
/// after-context is never printed again as before-context of a later
/// match, nor re-emitted in any other way.
pub proof fn lemma_no_duplicate_emission(pattern: Seq<char>, lines: Seq<Seq<char>>, b: nat, a: nat)
    ensures
        ({
            let out = spec_search(pattern, lines, b, a);
            forall|i: int, j: int| 0 <= i < j < out.len() ==> emission_line_num(#[trigger] out[i])
                < emission_line_num(#[trigger] out[j])
        }),
{
    lemma_run_from_increasing(pattern, init_model(), lines, b, a, 0);
}

/// Law: the records a search emits are a function of the pattern, the
/// context counts and the input lines alone, so two runs over the same
/// unchanged input emit identical records.
pub proof fn lemma_search_deterministic(
    pattern: Seq<char>,
    lines1: Seq<Seq<char>>,
    lines2: Seq<Seq<char>>,
    b: nat,
    a: nat,
)
    requires
        lines1 == lines2,
    ensures
        spec_search(pattern, lines1, b, a) == spec_search(pattern, lines2, b, a),
{
}

/// A run's final line count is its starting count plus the number of lines
/// it consumed.
proof fn lemma_run_from_line_count(
    s: StateModel,
    pattern: Seq<char>,
    lines: Seq<Seq<char>>,
    b: nat,
    a: nat,
)
    ensures
        spec_run_from(s, pattern, lines, b, a).0.line_count == s.line_count + lines.len(),
    decreases lines.len(),
{
    if lines.len() > 0 {
        let first = lines[0];
        let (s1, _) = spec_step(
            s,
            regex_found(pattern, first),
            regex_spans(pattern, first),
            first,
            b,
            a,
        );
        lemma_run_from_line_count(s1, pattern, lines.drop_first(), b, a);
    }
}

} // verus!
