//! The selection state machine: input text, the candidate list, the
//! filtered list and the highlighted index, driven by discrete key events.

use vstd::prelude::*;

verus! {

use crate::text::{is_substring_of, lower_of, lemma_substring_refl};

// ===== the filter =====

/// One candidate matches the input: empty input matches everything;
/// otherwise a substring test, on lowercased forms when case-insensitive.
pub open spec fn candidate_matches(cand: Seq<char>, input: Seq<char>, case_sensitive: bool) -> bool {
    if input.len() == 0 {
        true
    } else if case_sensitive {
        is_substring_of(input, cand)
    } else {
        is_substring_of(lower_of(input), lower_of(cand))
    }
}

/// The filtered list: the candidates that match the input, kept in their
/// original relative order — a stable substring filter, no ranking.
pub open spec fn spec_filtered(all: Seq<Seq<char>>, input: Seq<char>, case_sensitive: bool) -> Seq<
    Seq<char>,
> {
    all.filter(|c: Seq<char>| candidate_matches(c, input, case_sensitive))
}

// ===== filter lemmas =====

/// A sequence whose elements all satisfy the predicate filters to itself.
proof fn lemma_filter_all_sat<A>(s: Seq<A>, p: spec_fn(A) -> bool)
    requires
        forall|i: int| 0 <= i < s.len() ==> p(#[trigger] s[i]),
    ensures
        s.filter(p) == s,
    decreases s.len(),
{
    reveal(Seq::filter);
    if s.len() > 0 {
        lemma_filter_all_sat(s.drop_last(), p);
        assert(s.drop_last().filter(p).push(s.last()) =~= s);
    }
}

/// Filtering a pushed element either appends it or leaves the result alone.
proof fn lemma_filter_push<A>(s: Seq<A>, x: A, p: spec_fn(A) -> bool)
    ensures
        s.push(x).filter(p) == if p(x) {
            s.filter(p).push(x)
        } else {
            s.filter(p)
        },
{
    reveal(Seq::filter);
    assert(s.push(x).drop_last() =~= s);
    assert(s.push(x).last() == x);
}

/// Everything the filter keeps came from the original sequence.
proof fn lemma_filter_subset<A>(s: Seq<A>, p: spec_fn(A) -> bool, x: A)
    requires
        s.filter(p).contains(x),
    ensures
        s.contains(x),
    decreases s.len(),
{
    reveal(Seq::filter);
    if s.len() > 0 {
        if s.last() == x {
        } else {
            if p(s.last()) {
                let f = s.drop_last().filter(p).push(s.last());
                let i = choose|i: int| 0 <= i < f.len() && f[i] == x;
                assert(s.drop_last().filter(p)[i] == x);
            }
            lemma_filter_subset(s.drop_last(), p, x);
            let j = choose|j: int| 0 <= j < s.drop_last().len() && s.drop_last()[j] == x;
            assert(s[j] == x);
        }
    }
}

/// Filtering is idempotent: running the stable substring filter twice with
/// the same input yields the same ordered list as running it once.
pub proof fn lemma_filter_idempotent(all: Seq<Seq<char>>, input: Seq<char>, case_sensitive: bool)
    ensures
        spec_filtered(spec_filtered(all, input, case_sensitive), input, case_sensitive)
            == spec_filtered(all, input, case_sensitive),
{
    let p = |c: Seq<char>| candidate_matches(c, input, case_sensitive);
    let f = all.filter(p);
    assert forall|i: int| 0 <= i < f.len() implies p(#[trigger] f[i]) by {
        all.lemma_filter_pred(p, i);
    };
    lemma_filter_all_sat(f, p);
}

/// With empty input the filtered list is the whole candidate list, in order.
pub proof fn lemma_filter_empty_input(all: Seq<Seq<char>>, case_sensitive: bool)
    ensures
        spec_filtered(all, Seq::<char>::empty(), case_sensitive) == all,
{
    lemma_filter_all_sat(all, |c: Seq<char>| candidate_matches(c, Seq::<char>::empty(), case_sensitive));
}

// ===== the candidate source =====

/// The candidates a delimited string denotes: split at the delimiter, each
/// piece trimmed, empty pieces dropped, order kept.
pub open spec fn spec_split_candidates(s: Seq<char>, d: char) -> Seq<Seq<char>>
    decreases s.len(),
{
    let i = crate::text::first_index_of(s, d);
    if 0 <= i < s.len() {
        let t = crate::text::spec_trim(s.subrange(0, i));
        let rest = spec_split_candidates(s.subrange(i + 1, s.len() as int), d);
        if t.len() > 0 {
            seq![t] + rest
        } else {
            rest
        }
    } else {
        let t = crate::text::spec_trim(s);
        if t.len() > 0 {
            seq![t]
        } else {
            Seq::empty()
        }
    }
}

/// Splits a delimited string into candidates.  The same function serves the
/// explicit element list (with the configured delimiter) and text read from
/// standard input (with a line break as the delimiter).
#[verifier::loop_isolation(false)]
pub fn split_candidates(s: &str, delim: char) -> (r: Vec<String>)
    ensures
        r.deep_view() == spec_split_candidates(s@, delim),
{
    let v = crate::text::chars_of(s);
    let mut r: Vec<String> = Vec::new();
    let ghost goal = spec_split_candidates(s@, delim);
    let mut start: usize = 0;
    let mut done = false;
    proof {
        assert(v@.subrange(0, v@.len() as int) =~= v@);
        assert(r.deep_view() =~= Seq::<Seq<char>>::empty());
    }
    while !done
        invariant
            start <= v@.len(),
            !done ==> r.deep_view() + spec_split_candidates(
                v@.subrange(start as int, v@.len() as int),
                delim,
            ) == goal,
            done ==> r.deep_view() == goal,
        decreases v@.len() - start + (if done {
            0int
        } else {
            1int
        }),
    {
        let ghost suffix = v@.subrange(start as int, v@.len() as int);
        let ghost pre = r.deep_view();
        let mut j: usize = start;
        while j < v.len() && v[j] != delim
            invariant
                start <= j <= v@.len(),
                forall|k: int| start <= k < j ==> v@[k] != delim,
            decreases v@.len() - j,
        {
            j += 1;
        }
        proof {
            crate::text::lemma_first_index_of(suffix, delim);
            let fi = crate::text::first_index_of(suffix, delim);
            assert forall|k: int| 0 <= k < j - start implies suffix[k] != delim by {
                assert(v@[start + k] != delim);
            };
            if j < v.len() {
                assert(suffix[j - start] == delim);
                if fi < j - start {
                    assert(suffix[fi] == delim);
                    assert(false);
                }
                if fi > j - start {
                    assert(suffix[j - start] != delim);
                    assert(false);
                }
            } else {
                if fi < suffix.len() {
                    assert(suffix[fi] == delim);
                    assert(false);
                }
            }
        }
        let piece = crate::text::trim_chars(&crate::text::subvec(&v, start, j));
        proof {
            if j < v.len() {
                assert(v@.subrange(start as int, j as int) =~= suffix.subrange(0, j - start));
            } else {
                assert(v@.subrange(start as int, j as int) =~= suffix);
            }
        }
        if piece.len() > 0 {
            r.push(crate::text::string_of(&piece));
            proof {
                assert(r.deep_view() =~= pre.push(piece@));
            }
        }
        if j == v.len() {
            proof {
                if piece@.len() > 0 {
                    assert(spec_split_candidates(suffix, delim) =~= seq![piece@]);
                    assert(r.deep_view() =~= pre + seq![piece@]);
                } else {
                    assert(spec_split_candidates(suffix, delim) =~= Seq::<Seq<char>>::empty());
                    assert(r.deep_view() =~= pre + Seq::<Seq<char>>::empty());
                }
            }
            done = true;
        } else {
            proof {
                let rest = suffix.subrange(j - start + 1, suffix.len() as int);
                assert(rest =~= v@.subrange(j + 1, v@.len() as int));
                if piece@.len() > 0 {
                    assert(spec_split_candidates(suffix, delim) == seq![piece@]
                        + spec_split_candidates(rest, delim));
                    assert(r.deep_view() + spec_split_candidates(rest, delim) =~= pre + (seq![
                        piece@,
                    ] + spec_split_candidates(rest, delim)));
                } else {
                    assert(spec_split_candidates(suffix, delim) == spec_split_candidates(
                        rest,
                        delim,
                    ));
                }
            }
            start = j + 1;
        }
    }
    r
}

// ===== the state =====

pub struct SelectorState {
    pub current_input: String,
    pub selected_index: usize,
    pub matching_items: Vec<String>,
    pub all_items: Vec<String>,
    pub prompt: Option<String>,
}

pub ghost struct SelectorV {
    pub input: Seq<char>,
    pub selected: int,
    pub matching: Seq<Seq<char>>,
    pub all: Seq<Seq<char>>,
    pub prompt: Option<Seq<char>>,
}

impl View for SelectorState {
    type V = SelectorV;

    open spec fn view(&self) -> SelectorV {
        SelectorV {
            input: self.current_input@,
            selected: self.selected_index as int,
            matching: self.matching_items.deep_view(),
            all: self.all_items.deep_view(),
            prompt: self.prompt.deep_view(),
        }
    }
}

/// Session invariant: the filtered list is exactly the filter of the
/// candidates by the current input, and the highlighted index is valid
/// (zero when the filtered list is empty).
pub open spec fn selector_wf(s: SelectorV, case_sensitive: bool) -> bool {
    &&& s.matching == spec_filtered(s.all, s.input, case_sensitive)
    &&& if s.matching.len() == 0 {
        s.selected == 0
    } else {
        0 <= s.selected < s.matching.len()
    }
}

// ===== events and outcomes =====

#[derive(Clone, Copy, Debug, PartialEq, Eq, Structural)]
pub enum SelectorEvent {
    TextInsert(char),
    Backspace,
    MoveDown,
    MoveUp,
    TabComplete,
    Commit,
    Cancel,
}

/// What one event produced: a continuing session (with or without a needed
/// repaint), a terminal commit (with or without a value), or cancellation.
#[derive(Debug)]
pub enum EventOutcome {
    Continue { redraw: bool },
    Commit { value: Option<String> },
    Cancelled,
}

pub ghost enum OutcomeV {
    Continue { redraw: bool },
    Commit { value: Option<Seq<char>> },
    Cancelled,
}

impl View for EventOutcome {
    type V = OutcomeV;

    open spec fn view(&self) -> OutcomeV {
        match self {
            EventOutcome::Continue { redraw } => OutcomeV::Continue { redraw: *redraw },
            EventOutcome::Commit { value } => OutcomeV::Commit { value: value.deep_view() },
            EventOutcome::Cancelled => OutcomeV::Cancelled,
        }
    }
}

// ===== the transition relation =====

/// The state after the input text has been replaced: index reset to zero
/// and the filtered list recomputed.
pub open spec fn spec_with_input(s: SelectorV, input: Seq<char>, case_sensitive: bool) -> SelectorV {
    SelectorV {
        input: input,
        selected: 0,
        matching: spec_filtered(s.all, input, case_sensitive),
        all: s.all,
        prompt: s.prompt,
    }
}

/// The state after one event.
pub open spec fn spec_step(s: SelectorV, ev: SelectorEvent, case_sensitive: bool) -> SelectorV {
    match ev {
        SelectorEvent::TextInsert(c) => spec_with_input(s, s.input.push(c), case_sensitive),
        SelectorEvent::Backspace => if s.input.len() > 0 {
            spec_with_input(s, s.input.drop_last(), case_sensitive)
        } else {
            s
        },
        SelectorEvent::MoveDown => if s.matching.len() > 0 {
            SelectorV { selected: (s.selected + 1) % (s.matching.len() as int), ..s }
        } else {
            s
        },
        SelectorEvent::MoveUp => if s.matching.len() > 0 {
            SelectorV {
                selected: (s.selected + s.matching.len() - 1) % (s.matching.len() as int),
                ..s
            }
        } else {
            s
        },
        SelectorEvent::TabComplete => if s.matching.len() > 0 && 0 <= s.selected
            < s.matching.len() {
            spec_with_input(s, s.matching[s.selected], case_sensitive)
        } else {
            s
        },
        SelectorEvent::Commit => s,
        SelectorEvent::Cancel => s,
    }
}

/// The committed value, when the commit event arrives in state `s`: the
/// highlighted candidate; else, in free-text mode (no candidates at all)
/// the raw input when non-empty; else nothing.
pub open spec fn spec_commit_value(s: SelectorV) -> Option<Seq<char>> {
    if s.matching.len() > 0 && 0 <= s.selected < s.matching.len() {
        Some(s.matching[s.selected])
    } else if s.all.len() == 0 && s.input.len() > 0 {
        Some(s.input)
    } else {
        None
    }
}

/// The outcome of one event.
pub open spec fn spec_outcome(s: SelectorV, ev: SelectorEvent) -> OutcomeV {
    match ev {
        SelectorEvent::TextInsert(_) => OutcomeV::Continue { redraw: true },
        SelectorEvent::Backspace => OutcomeV::Continue { redraw: s.input.len() > 0 },
        SelectorEvent::MoveDown => OutcomeV::Continue { redraw: s.matching.len() > 0 },
        SelectorEvent::MoveUp => OutcomeV::Continue { redraw: s.matching.len() > 0 },
        SelectorEvent::TabComplete => OutcomeV::Continue { redraw: s.matching.len() > 0 },
        SelectorEvent::Commit => OutcomeV::Commit { value: spec_commit_value(s) },
        SelectorEvent::Cancel => OutcomeV::Cancelled,
    }
}

// ===== executable filtering =====

/// The filtered candidate list for the given input text.
#[verifier::loop_isolation(false)]
fn filter_items(all: &Vec<String>, input: &str, case_sensitive: bool) -> (r: Vec<String>)
    ensures
        r.deep_view() == spec_filtered(all.deep_view(), input@, case_sensitive),
{
    let ghost p = |c: Seq<char>| candidate_matches(c, input@, case_sensitive);
    let mut r: Vec<String> = Vec::new();
    proof {
        assert(r.deep_view() =~= all.deep_view().subrange(0, 0).filter(p));
        reveal(Seq::filter);
    }
    if input.is_empty() {
        let mut i: usize = 0;
        while i < all.len()
            invariant
                i <= all@.len(),
                r.deep_view() == all.deep_view().subrange(0, i as int).filter(p),
            decreases all@.len() - i,
        {
            let ghost prev = r.deep_view();
            let ghost pre = all.deep_view().subrange(0, i as int);
            r.push(all[i].clone());
            i += 1;
            proof {
                lemma_filter_push(pre, all.deep_view()[i - 1], p);
                assert(all.deep_view().subrange(0, i as int) =~= pre.push(
                    all.deep_view()[i - 1],
                ));
                assert(r.deep_view() =~= prev.push(all.deep_view()[i - 1]));
            }
        }
        proof {
            assert(all.deep_view().subrange(0, all@.len() as int) =~= all.deep_view());
        }
        r
    } else {
        let needle = if case_sensitive {
            String::from_str(input)
        } else {
            crate::text::to_lowercase(input)
        };
        let mut i: usize = 0;
        while i < all.len()
            invariant
                i <= all@.len(),
                case_sensitive ==> needle@ == input@,
                !case_sensitive ==> needle@ == lower_of(input@),
                input@.len() > 0,
                r.deep_view() == all.deep_view().subrange(0, i as int).filter(p),
            decreases all@.len() - i,
        {
            let ghost prev = r.deep_view();
            let ghost pre = all.deep_view().subrange(0, i as int);
            let keeps: bool = if case_sensitive {
                crate::text::str_contains(all[i].as_str(), needle.as_str())
            } else {
                let low_item = crate::text::to_lowercase(all[i].as_str());
                crate::text::str_contains(low_item.as_str(), needle.as_str())
            };
            proof {
                assert(keeps == p(all.deep_view()[i as int]));
            }
            if keeps {
                r.push(all[i].clone());
                proof {
                    assert(r.deep_view() =~= prev.push(all.deep_view()[i as int]));
                }
            }
            i += 1;
            proof {
                lemma_filter_push(pre, all.deep_view()[i - 1], p);
                assert(all.deep_view().subrange(0, i as int) =~= pre.push(
                    all.deep_view()[i - 1],
                ));
            }
        }
        proof {
            assert(all.deep_view().subrange(0, all@.len() as int) =~= all.deep_view());
        }
        r
    }
}

/// Recomputes the filtered list from the candidates and the current input;
/// everything else is left alone.
pub fn update_matching_items_refactored(app_state: &mut SelectorState, case_sensitive: bool)
    ensures
        final(app_state)@ == (SelectorV {
            matching: spec_filtered(old(app_state)@.all, old(app_state)@.input, case_sensitive),
            ..old(app_state)@
        }),
{
    let m = filter_items(&app_state.all_items, app_state.current_input.as_str(), case_sensitive);
    app_state.matching_items = m;
}

// ===== construction and the state machine =====

impl SelectorState {
    /// The state at startup: empty input, every candidate shown, the first
    /// one highlighted.
    pub fn new(all_items: Vec<String>, prompt: Option<String>) -> (s: SelectorState)
        ensures
            s@.input == Seq::<char>::empty(),
            s@.selected == 0,
            s@.all == all_items.deep_view(),
            s@.matching == all_items.deep_view(),
            s@.prompt == prompt.deep_view(),
            forall|cs: bool| selector_wf(s@, cs),
    {
        let mut st = SelectorState {
            current_input: String::new(),
            selected_index: 0,
            matching_items: Vec::new(),
            all_items: all_items,
            prompt: prompt,
        };
        update_matching_items_refactored(&mut st, true);
        proof {
            lemma_filter_empty_input(st@.all, true);
            lemma_filter_empty_input(st@.all, false);
            assert(st.current_input@ =~= Seq::<char>::empty());
        }
        st
    }

    /// Consumes one key event: updates the state exactly as the transition
    /// relation says, and reports whether a repaint is needed or whether the
    /// session ends (commit, with or without a value, or cancellation).
    pub fn handle_event(&mut self, ev: SelectorEvent, case_sensitive: bool) -> (out: EventOutcome)
        requires
            selector_wf(old(self)@, case_sensitive),
        ensures
            final(self)@ == spec_step(old(self)@, ev, case_sensitive),
            out@ == spec_outcome(old(self)@, ev),
            selector_wf(final(self)@, case_sensitive),
    {
        proof {
            lemma_step_preserves_wf(old(self)@, ev, case_sensitive);
        }
        match ev {
            SelectorEvent::TextInsert(c) => {
                crate::text::push_char(&mut self.current_input, c);
                self.selected_index = 0;
                update_matching_items_refactored(self, case_sensitive);
                EventOutcome::Continue { redraw: true }
            },
            SelectorEvent::Backspace => {
                if self.current_input.as_str().is_empty() {
                    EventOutcome::Continue { redraw: false }
                } else {
                    let n = self.current_input.as_str().unicode_len();
                    let shorter = String::from_str(
                        self.current_input.as_str().substring_char(0, n - 1),
                    );
                    proof {
                        assert(shorter@ =~= old(self)@.input.drop_last());
                    }
                    self.current_input = shorter;
                    self.selected_index = 0;
                    update_matching_items_refactored(self, case_sensitive);
                    EventOutcome::Continue { redraw: true }
                }
            },
            SelectorEvent::MoveDown => {
                if self.matching_items.len() > 0 {
                    let len = self.matching_items.len();
                    let next = if self.selected_index + 1 == len {
                        0
                    } else {
                        self.selected_index + 1
                    };
                    proof {
                        lemma_mod_step(old(self)@.selected, len as int);
                    }
                    self.selected_index = next;
                    EventOutcome::Continue { redraw: true }
                } else {
                    EventOutcome::Continue { redraw: false }
                }
            },
            SelectorEvent::MoveUp => {
                if self.matching_items.len() > 0 {
                    let len = self.matching_items.len();
                    let next = if self.selected_index == 0 {
                        len - 1
                    } else {
                        self.selected_index - 1
                    };
                    proof {
                        lemma_mod_step_back(old(self)@.selected, len as int);
                    }
                    self.selected_index = next;
                    EventOutcome::Continue { redraw: true }
                } else {
                    EventOutcome::Continue { redraw: false }
                }
            },
            SelectorEvent::TabComplete => {
                if self.matching_items.len() > 0 {
                    let chosen = self.matching_items[self.selected_index].clone();
                    self.current_input = chosen;
                    self.selected_index = 0;
                    update_matching_items_refactored(self, case_sensitive);
                    EventOutcome::Continue { redraw: true }
                } else {
                    EventOutcome::Continue { redraw: false }
                }
            },
            SelectorEvent::Commit => {
                let value: Option<String> = if self.matching_items.len() > 0 {
                    Some(self.matching_items[self.selected_index].clone())
                } else if self.all_items.len() == 0 && !self.current_input.as_str().is_empty() {
                    Some(self.current_input.clone())
                } else {
                    None
                };
                EventOutcome::Commit { value }
            },
            SelectorEvent::Cancel => EventOutcome::Cancelled,
        }
    }
}

// ===== laws =====

/// One step keeps the session invariant.
pub proof fn lemma_step_preserves_wf(s: SelectorV, ev: SelectorEvent, case_sensitive: bool)
    requires
        selector_wf(s, case_sensitive),
    ensures
        selector_wf(spec_step(s, ev, case_sensitive), case_sensitive),
{
    match ev {
        SelectorEvent::MoveDown => {
            if s.matching.len() > 0 {
                lemma_mod_step(s.selected, s.matching.len() as int);
            }
        },
        SelectorEvent::MoveUp => {
            if s.matching.len() > 0 {
                lemma_mod_step_back(s.selected, s.matching.len() as int);
            }
        },
        _ => {},
    }
}

proof fn lemma_mod_step(i: int, n: int)
    requires
        0 <= i < n,
    ensures
        (i + 1) % n == if i + 1 == n {
            0
        } else {
            i + 1
        },
{
    if i + 1 == n {
        assert(n % n == 0) by (nonlinear_arith)
            requires
                n > 0,
        ;
    } else {
        assert((i + 1) % n == i + 1) by (nonlinear_arith)
            requires
                0 <= i + 1 < n,
        ;
    }
}

proof fn lemma_mod_step_back(i: int, n: int)
    requires
        0 <= i < n,
    ensures
        (i + n - 1) % n == if i == 0 {
            n - 1
        } else {
            i - 1
        },
{
    if i == 0 {
        assert((n - 1) % n == n - 1) by (nonlinear_arith)
            requires
                n > 0,
        ;
    } else {
        assert((i + n - 1) % n == i - 1) by (nonlinear_arith)
            requires
                0 < i < n,
        ;
    }
}

/// Moving down and then up returns the highlighted index — and with it the
/// whole state — to its original value.
pub proof fn lemma_move_down_up_inverse(s: SelectorV, case_sensitive: bool)
    requires
        selector_wf(s, case_sensitive),
    ensures
        spec_step(spec_step(s, SelectorEvent::MoveDown, case_sensitive), SelectorEvent::MoveUp,
            case_sensitive) == s,
{
    if s.matching.len() > 0 {
        let n = s.matching.len() as int;
        lemma_mod_step(s.selected, n);
        let mid = (s.selected + 1) % n;
        lemma_mod_step_back(mid, n);
    }
}

/// The state after `k` repetitions of one event.
pub open spec fn spec_step_repeat(s: SelectorV, ev: SelectorEvent, k: nat, case_sensitive: bool) -> SelectorV
    decreases k,
{
    if k == 0 {
        s
    } else {
        spec_step(spec_step_repeat(s, ev, (k - 1) as nat, case_sensitive), ev, case_sensitive)
    }
}

proof fn lemma_repeat_down_index(s: SelectorV, k: nat, case_sensitive: bool)
    requires
        selector_wf(s, case_sensitive),
        s.matching.len() > 0,
    ensures
        spec_step_repeat(s, SelectorEvent::MoveDown, k, case_sensitive) == (SelectorV {
            selected: (s.selected + k) % (s.matching.len() as int),
            ..s
        }),
    decreases k,
{
    let n = s.matching.len() as int;
    if k == 0 {
        assert((s.selected + 0) % n == s.selected) by (nonlinear_arith)
            requires
                0 <= s.selected < n,
        ;
    } else {
        lemma_repeat_down_index(s, (k - 1) as nat, case_sensitive);
        let prev = spec_step_repeat(s, SelectorEvent::MoveDown, (k - 1) as nat, case_sensitive);
        assert(selector_wf(prev, case_sensitive)) by {
            assert(0 <= (s.selected + (k - 1)) % n < n) by (nonlinear_arith)
                requires
                    n > 0,
            ;
        }
        assert(((s.selected + (k - 1)) % n + 1) % n == (s.selected + k) % n) by (nonlinear_arith)
            requires
                n > 0,
                0 <= s.selected,
                k >= 1,
        ;
    }
}

/// Wraparound is a cycle of order `n`: on a filtered list of length `n`,
/// `n` repetitions of the move-down event return the highlighted index —
/// and with it the whole state — to its original value.
pub proof fn lemma_move_down_order_n(s: SelectorV, case_sensitive: bool)
    requires
        selector_wf(s, case_sensitive),
        s.matching.len() > 0,
    ensures
        spec_step_repeat(s, SelectorEvent::MoveDown, s.matching.len(), case_sensitive) == s,
{
    let n = s.matching.len() as int;
    lemma_repeat_down_index(s, s.matching.len(), case_sensitive);
    assert((s.selected + n) % n == s.selected) by (nonlinear_arith)
        requires
            0 <= s.selected < n,
    ;
}

/// After tab-completion the filtered list still contains the completed
/// candidate: the new input is that candidate's full text, and every text
/// contains itself, case folded or not.
pub proof fn lemma_tab_complete_keeps_candidate(s: SelectorV, case_sensitive: bool)
    requires
        selector_wf(s, case_sensitive),
        s.matching.len() > 0,
    ensures
        spec_step(s, SelectorEvent::TabComplete, case_sensitive).matching.contains(
            s.matching[s.selected],
        ),
{
    let c = s.matching[s.selected];
    let p = |x: Seq<char>| candidate_matches(x, c, case_sensitive);
    assert(s.matching.contains(c));
    lemma_filter_subset(
        s.all,
        |x: Seq<char>| candidate_matches(x, s.input, case_sensitive),
        c,
    );
    let i = choose|i: int| 0 <= i < s.all.len() && s.all[i] == c;
    lemma_substring_refl(c);
    lemma_substring_refl(lower_of(c));
    assert(p(s.all[i]));
    s.all.lemma_filter_contains(p, i);
}

} // verus!
