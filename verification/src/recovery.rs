//! Boot recovery: after a failed mount attempt, decide whether to mark the
//! failing modules as skipped and try again, or to give up.

use vstd::prelude::*;

verus! {

broadcast use vstd::string::group_string_axioms;

/// The stage of the boot sequence in which modules failed.
#[derive(Debug, Clone, Copy, PartialEq, Eq, Structural)]
pub enum FailureStage {
    Sync,
    Execute,
}

pub open spec fn stage_name(s: FailureStage) -> Seq<char> {
    match s {
        FailureStage::Sync => "sync"@,
        FailureStage::Execute => "execute"@,
    }
}

impl FailureStage {
    /// The stage as it is written in messages.
    pub fn name(&self) -> (r: &'static str)
        ensures
            r@ == stage_name(*self),
    {
        match self {
            FailureStage::Sync => "sync",
            FailureStage::Execute => "execute",
        }
    }
}

/// A failure of some modules during one stage, with the underlying error's message.
#[derive(Debug)]
pub struct ModuleStageFailure {
    pub stage: FailureStage,
    pub module_ids: Vec<String>,
    pub source: String,
}

/// The string views of a list of strings.
pub open spec fn names(v: Seq<String>) -> Seq<Seq<char>> {
    v.map_values(|s: String| s@)
}

/// Items joined with a separator.
pub open spec fn join_with(items: Seq<Seq<char>>, sep: Seq<char>) -> Seq<char>
    decreases items.len(),
{
    if items.len() == 0 {
        Seq::empty()
    } else if items.len() == 1 {
        items[0]
    } else {
        join_with(items.drop_last(), sep) + sep + items.last()
    }
}

/// `items.join(sep)`.
pub fn join_strings(items: &Vec<String>, sep: &str) -> (r: String)
    ensures
        r@ == join_with(names(items@), sep@),
{
    let mut r = String::new();
    let mut i: usize = 0;
    while i < items.len()
        invariant
            i <= items.len(),
            r@ == join_with(names(items@).take(i as int), sep@),
        decreases items.len() - i,
    {
        let ghost t = names(items@).take(i + 1);
        assert(t.drop_last() =~= names(items@).take(i as int));
        assert(t.last() == items@[i as int]@);
        if i > 0 {
            r.append(sep);
        } else {
            assert(r@ =~= Seq::<char>::empty());
        }
        r.append(items[i].as_str());
        proof {
            if i == 0 {
                assert(r@ =~= join_with(t, sep@));
            }
        }
        i += 1;
    }
    assert(names(items@).take(items.len() as int) =~= names(items@));
    r
}

/// The message of a module failure: the stage, the modules if any are known, and the cause.
pub open spec fn module_stage_message(stage: FailureStage, ids: Seq<Seq<char>>, source: Seq<char>) -> Seq<
    char,
> {
    if ids.len() == 0 {
        "module stage failure during "@ + stage_name(stage) + ": "@ + source
    } else {
        "module stage failure during "@ + stage_name(stage) + " for ["@ + join_with(ids, ", "@)
            + "]: "@ + source
    }
}

impl ModuleStageFailure {
    pub fn new(stage: FailureStage, module_ids: Vec<String>, source: String) -> (r: Self)
        ensures
            r.stage == stage,
            r.module_ids == module_ids,
            r.source == source,
    {
        ModuleStageFailure { stage, module_ids, source }
    }

    /// The failure as text.
    pub fn message(&self) -> (r: String)
        ensures
            r@ == module_stage_message(self.stage, names(self.module_ids@), self.source@),
    {
        let mut r = String::new();
        r.append("module stage failure during ");
        r.append(self.stage.name());
        if self.module_ids.len() == 0 {
            r.append(": ");
        } else {
            r.append(" for [");
            let joined = join_strings(&self.module_ids, ", ");
            r.append(joined.as_str());
            r.append("]: ");
        }
        r.append(self.source.as_str());
        proof {
            assert(names(self.module_ids@).len() == self.module_ids@.len());
            if self.module_ids.len() == 0 {
                assert(r@ =~= module_stage_message(self.stage, names(self.module_ids@), self.source@));
            } else {
                assert(r@ =~= module_stage_message(self.stage, names(self.module_ids@), self.source@));
            }
        }
        r
    }
}


/// What a mount attempt ended with, as far as recovery is concerned.
pub enum AttemptOutcome {
    Success,
    /// A module-stage failure naming the modules it could attribute (possibly none).
    ModuleFailure(Vec<String>),
    /// Any other error.
    OtherFailure,
}

pub ghost enum OutcomeView {
    Success,
    ModuleFailure(Seq<Seq<char>>),
    OtherFailure,
}

pub open spec fn outcome_view(o: AttemptOutcome) -> OutcomeView {
    match o {
        AttemptOutcome::Success => OutcomeView::Success,
        AttemptOutcome::ModuleFailure(ids) => OutcomeView::ModuleFailure(names(ids@)),
        AttemptOutcome::OtherFailure => OutcomeView::OtherFailure,
    }
}

/// What the boot loop does next.
#[derive(Debug, Clone, Copy, PartialEq, Eq, Structural)]
pub enum RecoveryNext {
    /// The attempt succeeded: stop.
    Finish,
    /// Start another attempt.
    Retry,
    /// The restart limit is exceeded: stop with that error.
    AbortRetryLimit,
    /// The failure cannot be recovered from: stop with it.
    Fail,
}

/// How the failing module ids were sorted.
pub struct MarkOutcome {
    /// Modules to mark as skipped now (a skip marker is created for each).
    pub newly_marked: Vec<String>,
    /// Modules that were marked by an earlier attempt.
    pub already_marked: Vec<String>,
    /// Ids that name no module directory.
    pub unknown_modules: Vec<String>,
}

pub struct RecoveryDecision {
    pub next: RecoveryNext,
    pub marks: MarkOutcome,
}

/// The recovery loop's memory between attempts.
pub struct RecoveryState {
    pub restart_round: usize,
    pub max_restarts: usize,
    pub auto_skipped: Vec<String>,
    pub unattributed_retry_used: bool,
}

pub ghost struct RecoveryModel {
    pub round: nat,
    pub max: nat,
    pub skipped: Seq<Seq<char>>,
    pub used: bool,
}

pub ghost struct MarkModel {
    pub newly: Seq<Seq<char>>,
    pub already: Seq<Seq<char>>,
    pub unknown: Seq<Seq<char>>,
    pub skipped: Seq<Seq<char>>,
}

impl View for RecoveryState {
    type V = RecoveryModel;

    open spec fn view(&self) -> RecoveryModel {
        RecoveryModel {
            round: self.restart_round as nat,
            max: self.max_restarts as nat,
            skipped: names(self.auto_skipped@),
            used: self.unattributed_retry_used,
        }
    }
}

/// Sorting the failing ids in order: already skipped, known (now skipped), or unknown.
pub open spec fn mark_fold(ids: Seq<Seq<char>>, known: Seq<Seq<char>>, skipped: Seq<Seq<char>>) -> MarkModel
    decreases ids.len(),
{
    if ids.len() == 0 {
        MarkModel { newly: Seq::empty(), already: Seq::empty(), unknown: Seq::empty(), skipped }
    } else {
        let m = mark_fold(ids.drop_last(), known, skipped);
        let id = ids.last();
        if m.skipped.contains(id) {
            MarkModel { already: m.already.push(id), ..m }
        } else if known.contains(id) {
            MarkModel { newly: m.newly.push(id), skipped: m.skipped.push(id), ..m }
        } else {
            MarkModel { unknown: m.unknown.push(id), ..m }
        }
    }
}

/// One decision of the recovery loop after an attempt.
pub open spec fn step_model(m: RecoveryModel, o: OutcomeView, known: Seq<Seq<char>>) -> (
    RecoveryModel,
    RecoveryNext,
    MarkModel,
) {
    let none = MarkModel {
        newly: Seq::empty(),
        already: Seq::empty(),
        unknown: Seq::empty(),
        skipped: m.skipped,
    };
    match o {
        OutcomeView::Success => (m, RecoveryNext::Finish, none),
        OutcomeView::OtherFailure => (m, RecoveryNext::Fail, none),
        OutcomeView::ModuleFailure(ids) => {
            if ids.len() == 0 && !m.used {
                let m2 = RecoveryModel { round: m.round + 1, used: true, ..m };
                (m2, if m2.round > m.max {
                    RecoveryNext::AbortRetryLimit
                } else {
                    RecoveryNext::Retry
                }, none)
            } else {
                let mk = mark_fold(ids, known, m.skipped);
                if mk.newly.len() > 0 {
                    let m2 = RecoveryModel { round: m.round + 1, skipped: mk.skipped, ..m };
                    (m2, if m2.round > m.max {
                        RecoveryNext::AbortRetryLimit
                    } else {
                        RecoveryNext::Retry
                    }, mk)
                } else {
                    (RecoveryModel { skipped: mk.skipped, ..m }, RecoveryNext::Fail, mk)
                }
            }
        },
    }
}

pub open spec fn marks_view(k: MarkOutcome, skipped: Seq<Seq<char>>) -> MarkModel {
    MarkModel {
        newly: names(k.newly_marked@),
        already: names(k.already_marked@),
        unknown: names(k.unknown_modules@),
        skipped,
    }
}

fn contains_string(v: &Vec<String>, s: &String) -> (r: bool)
    ensures
        r == names(v@).contains(s@),
{
    let mut i: usize = 0;
    while i < v.len()
        invariant
            i <= v.len(),
            forall|j: int| 0 <= j < i ==> names(v@)[j] != s@,
        decreases v.len() - i,
    {
        if v[i].eq(s) {
            assert(names(v@)[i as int] == s@);
            return true;
        }
        i += 1;
    }
    false
}

fn push_name(v: &mut Vec<String>, s: &String)
    ensures
        names(final(v)@) == names(old(v)@).push(s@),
{
    let c = s.clone();
    v.push(c);
    assert(names(v@) =~= names(old(v)@).push(s@));
}

/// Sorts the failing module ids; known ones not yet skipped are added to `auto_skipped`.
pub fn mark_failed_modules(
    module_ids: &Vec<String>,
    known_modules: &Vec<String>,
    auto_skipped: &mut Vec<String>,
) -> (r: MarkOutcome)
    ensures
        marks_view(r, names(final(auto_skipped)@)) == mark_fold(
            names(module_ids@),
            names(known_modules@),
            names(old(auto_skipped)@),
        ),
{
    let mut newly_marked: Vec<String> = Vec::new();
    let mut already_marked: Vec<String> = Vec::new();
    let mut unknown_modules: Vec<String> = Vec::new();
    let ghost ids = names(module_ids@);
    let ghost known = names(known_modules@);
    let ghost sk0 = names(auto_skipped@);
    let mut i: usize = 0;
    assert(ids.take(0) =~= Seq::<Seq<char>>::empty());
    assert(names(newly_marked@) =~= Seq::<Seq<char>>::empty());
    assert(names(already_marked@) =~= Seq::<Seq<char>>::empty());
    assert(names(unknown_modules@) =~= Seq::<Seq<char>>::empty());
    while i < module_ids.len()
        invariant
            i <= module_ids.len(),
            ids == names(module_ids@),
            known == names(known_modules@),
            mark_fold(ids.take(i as int), known, sk0) == (MarkModel {
                newly: names(newly_marked@),
                already: names(already_marked@),
                unknown: names(unknown_modules@),
                skipped: names(auto_skipped@),
            }),
        decreases module_ids.len() - i,
    {
        let id = &module_ids[i];
        let ghost t = ids.take(i + 1);
        assert(t.drop_last() =~= ids.take(i as int));
        assert(t.last() == id@);
        if contains_string(auto_skipped, id) {
            push_name(&mut already_marked, id);
        } else if contains_string(known_modules, id) {
            push_name(auto_skipped, id);
            push_name(&mut newly_marked, id);
        } else {
            push_name(&mut unknown_modules, id);
        }
        i += 1;
    }
    assert(ids.take(module_ids.len() as int) =~= ids);
    MarkOutcome { newly_marked, already_marked, unknown_modules }
}

impl RecoveryState {
    /// A fresh loop for `module_candidates` module directories: one restart per module, plus one.
    pub fn new(module_candidates: usize) -> (r: Self)
        ensures
            r@.round == 0,
            r@.max == (if module_candidates < usize::MAX { module_candidates + 1 } else { usize::MAX as int }),
            r@.skipped == Seq::<Seq<char>>::empty(),
            !r@.used,
    {
        let r = RecoveryState {
            restart_round: 0,
            max_restarts: module_candidates.saturating_add(1),
            auto_skipped: Vec::new(),
            unattributed_retry_used: false,
        };
        assert(names(r.auto_skipped@) =~= Seq::<Seq<char>>::empty());
        r
    }

    /// Decides what follows an attempt, updating the loop's memory.
    pub fn step(&mut self, outcome: &AttemptOutcome, known_modules: &Vec<String>) -> (r: RecoveryDecision)
        requires
            old(self).restart_round < usize::MAX,
        ensures
            (final(self)@, r.next, marks_view(r.marks, final(self)@.skipped)) == step_model(
                old(self)@,
                outcome_view(*outcome),
                names(known_modules@),
            ),
            final(self).max_restarts == old(self).max_restarts,
    {
        let empty = MarkOutcome {
            newly_marked: Vec::new(),
            already_marked: Vec::new(),
            unknown_modules: Vec::new(),
        };
        assert(names(empty.newly_marked@) =~= Seq::<Seq<char>>::empty());
        assert(names(empty.already_marked@) =~= Seq::<Seq<char>>::empty());
        assert(names(empty.unknown_modules@) =~= Seq::<Seq<char>>::empty());
        match outcome {
            AttemptOutcome::Success => RecoveryDecision { next: RecoveryNext::Finish, marks: empty },
            AttemptOutcome::OtherFailure => RecoveryDecision { next: RecoveryNext::Fail, marks: empty },
            AttemptOutcome::ModuleFailure(ids) => {
                if ids.len() == 0 && !self.unattributed_retry_used {
                    self.unattributed_retry_used = true;
                    self.restart_round = self.restart_round + 1;
                    let next = if self.restart_round > self.max_restarts {
                        RecoveryNext::AbortRetryLimit
                    } else {
                        RecoveryNext::Retry
                    };
                    RecoveryDecision { next, marks: empty }
                } else {
                    let marks = mark_failed_modules(ids, known_modules, &mut self.auto_skipped);
                    if marks.newly_marked.len() > 0 {
                        self.restart_round = self.restart_round + 1;
                        let next = if self.restart_round > self.max_restarts {
                            RecoveryNext::AbortRetryLimit
                        } else {
                            RecoveryNext::Retry
                        };
                        RecoveryDecision { next, marks }
                    } else {
                        RecoveryDecision { next: RecoveryNext::Fail, marks }
                    }
                }
            },
        }
    }
}

/// The number of retries a run makes before it stops, given the attempts' outcomes in order.
pub open spec fn run_retries(m: RecoveryModel, outs: Seq<OutcomeView>, known: Seq<Seq<char>>) -> nat
    decreases outs.len(),
{
    if outs.len() == 0 {
        0
    } else {
        let st = step_model(m, outs[0], known);
        if st.1 == RecoveryNext::Retry {
            1 + run_retries(st.0, outs.drop_first(), known)
        } else {
            0
        }
    }
}

/// Law: whatever the attempts end with, a run retries at most as many times as
/// its restart budget has left, so it makes at most `max + 1` attempts.
pub proof fn lemma_retries_bounded(m: RecoveryModel, outs: Seq<OutcomeView>, known: Seq<Seq<char>>)
    requires
        m.round <= m.max,
    ensures
        run_retries(m, outs, known) <= m.max - m.round,
    decreases outs.len(),
{
    if outs.len() > 0 {
        let st = step_model(m, outs[0], known);
        if st.1 == RecoveryNext::Retry {
            assert(st.0.round == m.round + 1 && st.0.max == m.max);
            lemma_retries_bounded(st.0, outs.drop_first(), known);
        }
    }
}

proof fn lemma_mark_fold_facts(ids: Seq<Seq<char>>, known: Seq<Seq<char>>, skipped: Seq<Seq<char>>)
    ensures
        mark_fold(ids, known, skipped).skipped == skipped + mark_fold(ids, known, skipped).newly,
        forall|i: int| 0 <= i < mark_fold(ids, known, skipped).newly.len() ==>
            !skipped.contains(#[trigger] mark_fold(ids, known, skipped).newly[i]),
        skipped.no_duplicates() ==> mark_fold(ids, known, skipped).skipped.no_duplicates(),
    decreases ids.len(),
{
    if ids.len() == 0 {
        assert(skipped + Seq::<Seq<char>>::empty() =~= skipped);
    } else {
        let m = mark_fold(ids.drop_last(), known, skipped);
        lemma_mark_fold_facts(ids.drop_last(), known, skipped);
        let id = ids.last();
        let r = mark_fold(ids, known, skipped);
        if !m.skipped.contains(id) && known.contains(id) {
            assert(r.skipped =~= skipped + r.newly);
            assert forall|i: int| 0 <= i < r.newly.len() implies !skipped.contains(#[trigger] r.newly[i]) by {
                if i == r.newly.len() - 1 {
                    if skipped.contains(id) {
                        let k = choose|k: int| 0 <= k < skipped.len() && skipped[k] == id;
                        assert(m.skipped[k] == id);
                    }
                } else {
                    assert(r.newly[i] == m.newly[i]);
                }
            }
        }
    }
}

/// Law: a module is marked as skipped at most once in a run; each step only adds
/// modules that were not skipped before.
pub proof fn lemma_step_marks_each_module_once(
    m: RecoveryModel,
    o: OutcomeView,
    known: Seq<Seq<char>>,
)
    requires
        m.skipped.no_duplicates(),
    ensures
        step_model(m, o, known).0.skipped.no_duplicates(),
        step_model(m, o, known).0.skipped == m.skipped + step_model(m, o, known).2.newly,
        forall|i: int| 0 <= i < step_model(m, o, known).2.newly.len() ==>
            !m.skipped.contains(#[trigger] step_model(m, o, known).2.newly[i]),
{
    if let OutcomeView::ModuleFailure(ids) = o {
        lemma_mark_fold_facts(ids, known, m.skipped);
    }
    let st = step_model(m, o, known);
    if st.2.newly.len() == 0 {
        assert(m.skipped + st.2.newly =~= m.skipped);
    }
}

/// Law: a failure that names no module is retried once per run; after that it ends the run.
pub proof fn lemma_unattributed_retry_once(m: RecoveryModel, known: Seq<Seq<char>>)
    requires
        m.used,
    ensures
        step_model(m, OutcomeView::ModuleFailure(Seq::empty()), known).1 == RecoveryNext::Fail,
{
    assert(mark_fold(Seq::<Seq<char>>::empty(), known, m.skipped).newly.len() == 0);
}


/// Law: marking sorts each failing id, in order, into exactly one of the three
/// lists: already skipped when reached, newly skipped (a known module), or
/// unknown; the skipped list grows by exactly the newly skipped ids.
pub proof fn lemma_mark_sorts_each_id_once(
    ids: Seq<Seq<char>>,
    known: Seq<Seq<char>>,
    skipped: Seq<Seq<char>>,
)
    ensures
        ({
            let mk = mark_fold(ids, known, skipped);
            &&& mk.newly.to_multiset().add(mk.already.to_multiset()).add(mk.unknown.to_multiset())
                == ids.to_multiset()
            &&& mk.skipped == skipped + mk.newly
            &&& mk.newly.no_duplicates()
            &&& forall|i: int|
                0 <= i < mk.newly.len() ==> known.contains(#[trigger] mk.newly[i])
                    && !skipped.contains(mk.newly[i])
            &&& forall|i: int|
                0 <= i < mk.already.len() ==> mk.skipped.contains(#[trigger] mk.already[i])
            &&& forall|i: int|
                0 <= i < mk.unknown.len() ==> !known.contains(#[trigger] mk.unknown[i])
                    && !skipped.contains(mk.unknown[i])
        }),
    decreases ids.len(),
{
    broadcast use {vstd::seq_lib::group_to_multiset_ensures, vstd::multiset::lemma_multiset_empty_len};
    let mk = mark_fold(ids, known, skipped);
    if ids.len() == 0 {
        assert(skipped + Seq::<Seq<char>>::empty() =~= skipped);
        assert(ids.to_multiset() =~= vstd::multiset::Multiset::empty());
        assert(mk.newly.to_multiset() =~= vstd::multiset::Multiset::empty());
        assert(mk.already.to_multiset() =~= vstd::multiset::Multiset::empty());
        assert(mk.unknown.to_multiset() =~= vstd::multiset::Multiset::empty());
    } else {
        let rest = ids.drop_last();
        let m = mark_fold(rest, known, skipped);
        lemma_mark_sorts_each_id_once(rest, known, skipped);
        let id = ids.last();
        assert(ids =~= rest.push(id));
        assert(ids.to_multiset() == rest.to_multiset().insert(id));
        if m.skipped.contains(id) {
            assert(mk.already == m.already.push(id));
            assert(mk.already.to_multiset() == m.already.to_multiset().insert(id));
            assert(mk.newly.to_multiset().add(mk.already.to_multiset()).add(mk.unknown.to_multiset())
                =~= ids.to_multiset());
            assert forall|i: int| 0 <= i < mk.already.len() implies mk.skipped.contains(
                #[trigger] mk.already[i],
            ) by {
                if i < m.already.len() {
                    assert(mk.already[i] == m.already[i]);
                }
            }
        } else if known.contains(id) {
            assert(mk.newly == m.newly.push(id));
            assert(mk.newly.to_multiset() == m.newly.to_multiset().insert(id));
            assert(mk.newly.to_multiset().add(mk.already.to_multiset()).add(mk.unknown.to_multiset())
                =~= ids.to_multiset());
            assert(mk.skipped =~= skipped + mk.newly);
            assert(!skipped.contains(id)) by {
                if skipped.contains(id) {
                    let k = choose|k: int| 0 <= k < skipped.len() && skipped[k] == id;
                    assert(m.skipped[k] == id);
                }
            }
            assert(!m.newly.contains(id)) by {
                if m.newly.contains(id) {
                    let k = choose|k: int| 0 <= k < m.newly.len() && m.newly[k] == id;
                    assert(m.skipped[skipped.len() + k] == id);
                }
            }
            assert forall|i: int, j: int| 0 <= i < j < mk.newly.len() implies mk.newly[i]
                != mk.newly[j] by {
                if j == mk.newly.len() - 1 {
                    assert(mk.newly[i] == m.newly[i]);
                } else {
                    assert(mk.newly[i] == m.newly[i] && mk.newly[j] == m.newly[j]);
                }
            }
            assert forall|i: int| 0 <= i < mk.newly.len() implies known.contains(
                #[trigger] mk.newly[i],
            ) && !skipped.contains(mk.newly[i]) by {
                if i < m.newly.len() {
                    assert(mk.newly[i] == m.newly[i]);
                }
            }
            assert forall|i: int| 0 <= i < mk.already.len() implies mk.skipped.contains(
                #[trigger] mk.already[i],
            ) by {
                let x = mk.already[i];
                assert(m.skipped.contains(x));
                let k = choose|k: int| 0 <= k < m.skipped.len() && m.skipped[k] == x;
                assert(mk.skipped[k] == x);
            }
        } else {
            assert(mk.unknown == m.unknown.push(id));
            assert(mk.unknown.to_multiset() == m.unknown.to_multiset().insert(id));
            assert(mk.newly.to_multiset().add(mk.already.to_multiset()).add(mk.unknown.to_multiset())
                =~= ids.to_multiset());
            assert(!skipped.contains(id)) by {
                if skipped.contains(id) {
                    let k = choose|k: int| 0 <= k < skipped.len() && skipped[k] == id;
                    assert(m.skipped[k] == id);
                }
            }
            assert forall|i: int| 0 <= i < mk.unknown.len() implies !known.contains(
                #[trigger] mk.unknown[i],
            ) && !skipped.contains(mk.unknown[i]) by {
                if i < m.unknown.len() {
                    assert(mk.unknown[i] == m.unknown[i]);
                }
            }
        }
    }
}

/// What the recovery loop keeps true while it runs over the module directories
/// `known`: the skipped modules are distinct known modules, and every restart
/// so far was either the one unattributed retry or a round that skipped a module.
pub open spec fn budget_invariant(m: RecoveryModel, known: Seq<Seq<char>>) -> bool {
    &&& m.skipped.no_duplicates()
    &&& forall|i: int| 0 <= i < m.skipped.len() ==> known.contains(#[trigger] m.skipped[i])
    &&& m.round <= (if m.used { 1int } else { 0int }) + m.skipped.len()
}

proof fn lemma_skipped_fit(skipped: Seq<Seq<char>>, known: Seq<Seq<char>>)
    requires
        skipped.no_duplicates(),
        forall|i: int| 0 <= i < skipped.len() ==> known.contains(#[trigger] skipped[i]),
    ensures
        skipped.len() <= known.len(),
{
    skipped.unique_seq_to_set();
    known.lemma_cardinality_of_set();
    assert(skipped.to_set().subset_of(known.to_set())) by {
        assert forall|x: Seq<char>| skipped.to_set().contains(x) implies known.to_set().contains(x) by {
            let k = choose|k: int| 0 <= k < skipped.len() && skipped[k] == x;
            assert(known.contains(skipped[k]));
        }
    }
    vstd::set_lib::lemma_len_subset(skipped.to_set(), known.to_set());
}

/// A new run over `n` module directories starts within its budget.
pub proof fn lemma_new_run_within_budget(known: Seq<Seq<char>>)
    ensures
        budget_invariant(
            RecoveryModel { round: 0, max: known.len() + 1, skipped: Seq::empty(), used: false },
            known,
        ),
{
}

/// Law: over `n` module directories with a restart limit of `n + 1`, a step
/// never stops the run at the restart limit and keeps the budget invariant:
/// each retry is the single unattributed one or skips a new known module.
pub proof fn lemma_step_never_hits_limit(m: RecoveryModel, o: OutcomeView, known: Seq<Seq<char>>)
    requires
        budget_invariant(m, known),
        m.max >= known.len() + 1,
    ensures
        step_model(m, o, known).1 != RecoveryNext::AbortRetryLimit,
        budget_invariant(step_model(m, o, known).0, known),
        step_model(m, o, known).0.max == m.max,
{
    lemma_skipped_fit(m.skipped, known);
    if let OutcomeView::ModuleFailure(ids) = o {
        if !(ids.len() == 0 && !m.used) {
            lemma_mark_sorts_each_id_once(ids, known, m.skipped);
            lemma_mark_fold_facts(ids, known, m.skipped);
            let mk = mark_fold(ids, known, m.skipped);
            assert forall|i: int| 0 <= i < mk.skipped.len() implies known.contains(
                #[trigger] mk.skipped[i],
            ) by {
                if i < m.skipped.len() {
                    assert(mk.skipped[i] == m.skipped[i]);
                } else {
                    assert(mk.skipped[i] == mk.newly[i - m.skipped.len()]);
                }
            }
            lemma_skipped_fit(mk.skipped, known);
        }
    }
}

/// Whether a run, given the attempts' outcomes in order, stops at the restart limit.
pub open spec fn run_aborts(m: RecoveryModel, outs: Seq<OutcomeView>, known: Seq<Seq<char>>) -> bool
    decreases outs.len(),
{
    if outs.len() == 0 {
        false
    } else {
        let st = step_model(m, outs[0], known);
        if st.1 == RecoveryNext::Retry {
            run_aborts(st.0, outs.drop_first(), known)
        } else {
            st.1 == RecoveryNext::AbortRetryLimit
        }
    }
}

/// Law: a run over `n` module directories, whatever its attempts end with, never
/// stops at the restart limit, and retries at most `n + 1` times (so it makes at
/// most `n + 2` attempts).
pub proof fn lemma_run_never_aborts(m: RecoveryModel, outs: Seq<OutcomeView>, known: Seq<Seq<char>>)
    requires
        budget_invariant(m, known),
        m.max == known.len() + 1,
        m.round <= m.max,
    ensures
        !run_aborts(m, outs, known),
        run_retries(m, outs, known) <= known.len() + 1,
    decreases outs.len(),
{
    lemma_retries_bounded(m, outs, known);
    if outs.len() > 0 {
        lemma_step_never_hits_limit(m, outs[0], known);
        let st = step_model(m, outs[0], known);
        if st.1 == RecoveryNext::Retry {
            lemma_skipped_fit(st.0.skipped, known);
            lemma_run_never_aborts(st.0, outs.drop_first(), known);
        }
    }
}

} // verus!
