//! Decisions around the Kubernetes API: where the client configuration comes from, and the
//! per-namespace permission check, as a state machine that asks for one access review at a time.
use vstd::prelude::*;

use crate::config::KubernetesConfig;
use crate::text::{chars_of, contains, contains_seq};

verus! {

/// Where the Kubernetes client configuration comes from.
#[derive(Debug, Clone)]
pub enum KubeConfigSource {
    /// The in-cluster service account.
    InCluster,
    /// A kubeconfig file; the path is the configured one.
    Kubeconfig(String),
    /// Whatever the environment provides.
    Infer,
}

/// Picks the client configuration source: in-cluster if configured so, else the configured
/// kubeconfig path, else inference.
pub fn kube_config_source(config: &KubernetesConfig) -> (r: KubeConfigSource)
    ensures
        config.in_cluster ==> r is InCluster,
        !config.in_cluster && config.kubeconfig_path is Some ==> (r matches KubeConfigSource::Kubeconfig(
            p,
        ) && p@ == config.kubeconfig_path->0@),
        !config.in_cluster && config.kubeconfig_path is None ==> r is Infer,
{
    if config.in_cluster {
        KubeConfigSource::InCluster
    } else {
        match &config.kubeconfig_path {
            Some(p) => KubeConfigSource::Kubeconfig(p.clone()),
            None => KubeConfigSource::Infer,
        }
    }
}

/// The resource an access review asks about: reading pod logs in a namespace, with a verb.
#[derive(Debug, Clone)]
pub struct AccessReviewRequest {
    pub namespace: String,
    pub verb: String,
    pub group: String,
    pub resource: String,
    pub subresource: String,
}

/// The access review for `verb` on the logs of the pods in `namespace` (core API group).
pub fn access_review_for(namespace: &str, verb: &str) -> (r: AccessReviewRequest)
    ensures
        r.namespace@ == namespace@,
        r.verb@ == verb@,
        r.group@ == Seq::<char>::empty(),
        r.resource@ == "pods"@,
        r.subresource@ == "log"@,
{
    AccessReviewRequest {
        namespace: namespace.to_owned(),
        verb: verb.to_owned(),
        group: String::new(),
        resource: String::from_str("pods"),
        subresource: String::from_str("log"),
    }
}

/// What came back from one access review.
#[derive(Debug, Clone)]
pub enum ReviewAnswer {
    /// The review completed; its status's `allowed`, if it had a status.
    Completed(Option<bool>),
    /// The review request failed, for the reason given.
    Failed(String),
}

pub enum ReviewAnswerView {
    Completed(Option<bool>),
    Failed(Seq<char>),
}

impl View for ReviewAnswer {
    type V = ReviewAnswerView;

    open spec fn view(&self) -> ReviewAnswerView {
        match self {
            ReviewAnswer::Completed(a) => ReviewAnswerView::Completed(*a),
            ReviewAnswer::Failed(r) => ReviewAnswerView::Failed(r@),
        }
    }
}

/// Why a permission check refused.
#[derive(Debug, Clone)]
pub enum PermissionError {
    /// The review did not allow `verb` on `namespace`.
    Denied { verb: String, namespace: String },
    /// The review for `namespace` could not be made.
    CheckFailed { namespace: String, reason: String },
}

/// The next thing a permission check does.
#[derive(Debug, Clone)]
pub enum PermissionStep {
    /// Access is granted.
    Granted,
    /// Ask for an access review of this namespace, and hand the answer back.
    Ask(String),
    /// Access is refused.
    Refused(PermissionError),
}

pub enum StepView {
    Granted,
    Ask(Seq<char>),
    Denied(Seq<char>, Seq<char>),
    CheckFailed(Seq<char>, Seq<char>),
}

impl View for PermissionStep {
    type V = StepView;

    open spec fn view(&self) -> StepView {
        match self {
            PermissionStep::Granted => StepView::Granted,
            PermissionStep::Ask(n) => StepView::Ask(n@),
            PermissionStep::Refused(PermissionError::Denied { verb, namespace }) => StepView::Denied(
                verb@,
                namespace@,
            ),
            PermissionStep::Refused(PermissionError::CheckFailed { namespace, reason }) =>
                StepView::CheckFailed(namespace@, reason@),
        }
    }
}

/// The check is skipped for no namespaces, or for a single empty one.
pub open spec fn skips_check(ns: Seq<Seq<char>>) -> bool {
    ns.len() == 0 || (ns.len() == 1 && ns[0].len() == 0)
}

/// The first index at or after `from` with a non-empty namespace, or the length if none.
pub open spec fn next_nonempty(ns: Seq<Seq<char>>, from: int) -> int
    decreases ns.len() - from,
{
    if from >= ns.len() {
        ns.len() as int
    } else if ns[from].len() > 0 {
        from
    } else {
        next_nonempty(ns, from + 1)
    }
}

/// How many non-empty namespaces stand at or after `from`.
pub open spec fn count_nonempty(ns: Seq<Seq<char>>, from: int) -> nat
    decreases ns.len() - from,
{
    if from >= ns.len() || from < 0 {
        0
    } else if ns[from].len() > 0 {
        1 + count_nonempty(ns, from + 1)
    } else {
        count_nonempty(ns, from + 1)
    }
}

/// The step at index `j` as found by `next_nonempty`: ask there, or grant past the end.
pub open spec fn ask_or_grant(ns: Seq<Seq<char>>, j: int) -> (int, StepView) {
    if j >= ns.len() {
        (j, StepView::Granted)
    } else {
        (j, StepView::Ask(ns[j]))
    }
}

/// The first step of a check: grant if skipped, else ask about the first non-empty namespace.
pub open spec fn first_step(ns: Seq<Seq<char>>) -> (int, StepView) {
    if skips_check(ns) {
        (ns.len() as int, StepView::Granted)
    } else {
        ask_or_grant(ns, next_nonempty(ns, 0))
    }
}

/// The step after the answer for the namespace at `at`: a failed review refuses, an allowing
/// one moves on to the next non-empty namespace, and anything else denies.
pub open spec fn next_step(ns: Seq<Seq<char>>, verb: Seq<char>, at: int, answer: ReviewAnswerView) -> (
    int,
    StepView,
) {
    match answer {
        ReviewAnswerView::Failed(reason) => (at, StepView::CheckFailed(ns[at], reason)),
        ReviewAnswerView::Completed(Some(true)) => ask_or_grant(ns, next_nonempty(ns, at + 1)),
        ReviewAnswerView::Completed(_) => (at, StepView::Denied(verb, ns[at])),
    }
}

/// Where a check in state `(at, step)` ends after the answers, one per question it asks.
pub open spec fn run_from(
    ns: Seq<Seq<char>>,
    verb: Seq<char>,
    at: int,
    step: StepView,
    answers: Seq<ReviewAnswerView>,
) -> StepView
    decreases answers.len(),
{
    if answers.len() == 0 {
        step
    } else {
        match step {
            StepView::Ask(_) => {
                let (j, s) = next_step(ns, verb, at, answers[0]);
                run_from(ns, verb, j, s, answers.drop_first())
            },
            _ => step,
        }
    }
}

/// Where a check of `verb` on `ns` ends after the answers.
pub open spec fn run_check(ns: Seq<Seq<char>>, verb: Seq<char>, answers: Seq<ReviewAnswerView>) -> StepView {
    let (j, s) = first_step(ns);
    run_from(ns, verb, j, s, answers)
}

/// An answer that allows access.
pub open spec fn answer_allows(a: ReviewAnswerView) -> bool {
    a == ReviewAnswerView::Completed(Some(true))
}

proof fn lemma_next_nonempty_bounds(ns: Seq<Seq<char>>, from: int)
    requires
        0 <= from,
    ensures
        from <= next_nonempty(ns, from) <= ns.len() || (from > ns.len() && next_nonempty(ns, from)
            == ns.len()),
        next_nonempty(ns, from) < ns.len() ==> ns[next_nonempty(ns, from)].len() > 0,
        forall|k: int| from <= k < next_nonempty(ns, from) ==> ns[k].len() == 0,
        count_nonempty(ns, from) == count_nonempty(ns, next_nonempty(ns, from)),
    decreases ns.len() - from,
{
    if from < ns.len() && ns[from].len() == 0 {
        lemma_next_nonempty_bounds(ns, from + 1);
    }
}

/// Granting from an asking state takes an allowing answer for each non-empty namespace from the
/// one asked about on.
proof fn lemma_granted_from(
    ns: Seq<Seq<char>>,
    verb: Seq<char>,
    at: int,
    answers: Seq<ReviewAnswerView>,
)
    requires
        0 <= at < ns.len(),
        ns[at].len() > 0,
        run_from(ns, verb, at, StepView::Ask(ns[at]), answers) == StepView::Granted,
    ensures
        answers.len() >= count_nonempty(ns, at),
        forall|k: int| 0 <= k < count_nonempty(ns, at) ==> answer_allows(#[trigger] answers[k]),
    decreases answers.len(),
{
    assert(answers.len() > 0);
    let a = answers[0];
    let rest = answers.drop_first();
    if !answer_allows(a) {
        match a {
            ReviewAnswerView::Failed(r) => {
                assert(run_from(ns, verb, at, StepView::Ask(ns[at]), answers) == run_from(
                    ns,
                    verb,
                    at,
                    StepView::CheckFailed(ns[at], r),
                    rest,
                ));
                if rest.len() > 0 {
                }
            },
            ReviewAnswerView::Completed(_) => {
                assert(run_from(ns, verb, at, StepView::Ask(ns[at]), answers) == run_from(
                    ns,
                    verb,
                    at,
                    StepView::Denied(verb, ns[at]),
                    rest,
                ));
                if rest.len() > 0 {
                }
            },
        }
        assert(false);
    }
    let j = next_nonempty(ns, at + 1);
    lemma_next_nonempty_bounds(ns, at + 1);
    assert(count_nonempty(ns, at) == 1 + count_nonempty(ns, at + 1));
    if j >= ns.len() {
        assert(count_nonempty(ns, j) == 0);
    } else {
        assert(run_from(ns, verb, at, StepView::Ask(ns[at]), answers) == run_from(
            ns,
            verb,
            j,
            StepView::Ask(ns[j]),
            rest,
        ));
        lemma_granted_from(ns, verb, j, rest);
        assert forall|k: int| 0 <= k < count_nonempty(ns, at) implies answer_allows(
            #[trigger] answers[k],
        ) by {
            if k > 0 {
                assert(answers[k] == rest[k - 1]);
            }
        }
    }
}

/// A check that is not skipped grants access only after an allowing answer for every non-empty
/// namespace, in order: the first answers, one per non-empty namespace, all allow.
pub proof fn lemma_granted_only_if_all_allowed(
    ns: Seq<Seq<char>>,
    verb: Seq<char>,
    answers: Seq<ReviewAnswerView>,
)
    requires
        !skips_check(ns),
        run_check(ns, verb, answers) == StepView::Granted,
    ensures
        answers.len() >= count_nonempty(ns, 0),
        forall|k: int| 0 <= k < count_nonempty(ns, 0) ==> answer_allows(#[trigger] answers[k]),
{
    lemma_next_nonempty_bounds(ns, 0);
    let j = next_nonempty(ns, 0);
    if j < ns.len() {
        lemma_granted_from(ns, verb, j, answers);
    } else {
        assert(count_nonempty(ns, j) == 0);
    }
}

/// The namespaces a check in state `(at, step)` asks access reviews for, one per answer it takes,
/// in order.
pub open spec fn asked_from(
    ns: Seq<Seq<char>>,
    verb: Seq<char>,
    at: int,
    step: StepView,
    answers: Seq<ReviewAnswerView>,
) -> Seq<Seq<char>>
    decreases answers.len(),
{
    if answers.len() == 0 {
        Seq::empty()
    } else {
        match step {
            StepView::Ask(n) => {
                let (j, s) = next_step(ns, verb, at, answers[0]);
                seq![n] + asked_from(ns, verb, j, s, answers.drop_first())
            },
            _ => Seq::empty(),
        }
    }
}

/// The namespaces a check of `verb` on `ns` asks access reviews for, the `k`-th taking the `k`-th
/// answer.
pub open spec fn asked_in_check(ns: Seq<Seq<char>>, verb: Seq<char>, answers: Seq<ReviewAnswerView>) -> Seq<
    Seq<char>,
> {
    let (j, s) = first_step(ns);
    asked_from(ns, verb, j, s, answers)
}

/// From an asking state that ends in a grant, every non-empty namespace from the one asked about
/// on was asked about, and its answer allowed.
proof fn lemma_reviewed_from(
    ns: Seq<Seq<char>>,
    verb: Seq<char>,
    at: int,
    answers: Seq<ReviewAnswerView>,
)
    requires
        0 <= at < ns.len(),
        ns[at].len() > 0,
        run_from(ns, verb, at, StepView::Ask(ns[at]), answers) == StepView::Granted,
    ensures
        asked_from(ns, verb, at, StepView::Ask(ns[at]), answers).len() <= answers.len(),
        forall|i: int|
            at <= i < ns.len() && (#[trigger] ns[i]).len() > 0 ==> exists|k: int|
                0 <= k < asked_from(ns, verb, at, StepView::Ask(ns[at]), answers).len()
                    && asked_from(ns, verb, at, StepView::Ask(ns[at]), answers)[k] == ns[i]
                    && answer_allows(#[trigger] answers[k]),
    decreases answers.len(),
{
    lemma_granted_from(ns, verb, at, answers);
    assert(count_nonempty(ns, at) == 1 + count_nonempty(ns, at + 1));
    let asked = asked_from(ns, verb, at, StepView::Ask(ns[at]), answers);
    let rest = answers.drop_first();
    let j = next_nonempty(ns, at + 1);
    lemma_next_nonempty_bounds(ns, at + 1);
    assert(answer_allows(answers[0]));
    assert(asked[0] == ns[at]);
    if j >= ns.len() {
        let tail = asked_from(ns, verb, j, StepView::Granted, rest);
        if rest.len() > 0 {
            assert(tail =~= Seq::<Seq<char>>::empty());
        }
        assert forall|i: int| at <= i < ns.len() && (#[trigger] ns[i]).len() > 0 implies exists|
            k: int,
        |
            0 <= k < asked.len() && asked[k] == ns[i] && answer_allows(#[trigger] answers[k]) by {
            assert(i == at);
        }
    } else {
        assert(run_from(ns, verb, at, StepView::Ask(ns[at]), answers) == run_from(
            ns,
            verb,
            j,
            StepView::Ask(ns[j]),
            rest,
        ));
        lemma_reviewed_from(ns, verb, j, rest);
        let tail = asked_from(ns, verb, j, StepView::Ask(ns[j]), rest);
        assert(asked == seq![ns[at]] + tail);
        assert forall|i: int| at <= i < ns.len() && (#[trigger] ns[i]).len() > 0 implies exists|
            k: int,
        |
            0 <= k < asked.len() && asked[k] == ns[i] && answer_allows(#[trigger] answers[k]) by {
            if i == at {
                assert(asked[0] == ns[i]);
            } else {
                assert(j <= i);
                let k2 = choose|k2: int|
                    0 <= k2 < tail.len() && tail[k2] == ns[i] && answer_allows(#[trigger] rest[k2]);
                assert(asked[k2 + 1] == tail[k2]);
                assert(answers[k2 + 1] == rest[k2]);
            }
        }
    }
}

/// A check that is not skipped grants access only after it asked an access review for every
/// non-empty namespace it was given, and the answer for each allowed access.
pub proof fn lemma_granted_check_reviewed_every_namespace(
    ns: Seq<Seq<char>>,
    verb: Seq<char>,
    answers: Seq<ReviewAnswerView>,
)
    requires
        !skips_check(ns),
        run_check(ns, verb, answers) == StepView::Granted,
    ensures
        asked_in_check(ns, verb, answers).len() <= answers.len(),
        forall|i: int|
            0 <= i < ns.len() && (#[trigger] ns[i]).len() > 0 ==> exists|k: int|
                0 <= k < asked_in_check(ns, verb, answers).len() && asked_in_check(
                    ns,
                    verb,
                    answers,
                )[k] == ns[i] && answer_allows(#[trigger] answers[k]),
{
    lemma_next_nonempty_bounds(ns, 0);
    let j = next_nonempty(ns, 0);
    if j < ns.len() {
        lemma_reviewed_from(ns, verb, j, answers);
    } else {
        if answers.len() > 0 {
            assert(asked_in_check(ns, verb, answers) =~= Seq::<Seq<char>>::empty());
        }
    }
}

proof fn lemma_count_nonempty_past_end(ns: Seq<Seq<char>>, from: int)
    requires
        from >= ns.len(),
    ensures
        count_nonempty(ns, from) == 0,
{
}

/// From an asking state, allowing answers for every non-empty namespace from the one asked about
/// on end in a grant.
proof fn lemma_allowed_from(
    ns: Seq<Seq<char>>,
    verb: Seq<char>,
    at: int,
    answers: Seq<ReviewAnswerView>,
)
    requires
        0 <= at < ns.len(),
        ns[at].len() > 0,
        answers.len() == count_nonempty(ns, at),
        forall|k: int| 0 <= k < answers.len() ==> answer_allows(#[trigger] answers[k]),
    ensures
        run_from(ns, verb, at, StepView::Ask(ns[at]), answers) == StepView::Granted,
    decreases answers.len(),
{
    assert(count_nonempty(ns, at) == 1 + count_nonempty(ns, at + 1));
    lemma_next_nonempty_bounds(ns, at + 1);
    let j = next_nonempty(ns, at + 1);
    let rest = answers.drop_first();
    assert(answer_allows(answers[0]));
    assert(next_step(ns, verb, at, answers[0]) == ask_or_grant(ns, j));
    assert(run_from(ns, verb, at, StepView::Ask(ns[at]), answers) == run_from(
        ns,
        verb,
        j,
        ask_or_grant(ns, j).1,
        rest,
    ));
    if j >= ns.len() {
        lemma_count_nonempty_past_end(ns, j);
        assert(rest.len() == 0);
    } else {
        assert forall|k: int| 0 <= k < rest.len() implies answer_allows(#[trigger] rest[k]) by {
            assert(rest[k] == answers[k + 1]);
        }
        lemma_allowed_from(ns, verb, j, rest);
    }
}

/// A check is granted when every review it asks for allows access: a check that is skipped is
/// granted at once, and any other check is granted after one allowing answer per non-empty
/// namespace.
pub proof fn lemma_all_allowed_is_granted(
    ns: Seq<Seq<char>>,
    verb: Seq<char>,
    answers: Seq<ReviewAnswerView>,
)
    requires
        skips_check(ns) ==> answers.len() == 0,
        !skips_check(ns) ==> answers.len() == count_nonempty(ns, 0),
        forall|k: int| 0 <= k < answers.len() ==> answer_allows(#[trigger] answers[k]),
    ensures
        run_check(ns, verb, answers) == StepView::Granted,
{
    if !skips_check(ns) {
        lemma_next_nonempty_bounds(ns, 0);
        let j = next_nonempty(ns, 0);
        if j < ns.len() {
            lemma_allowed_from(ns, verb, j, answers);
        } else {
            lemma_count_nonempty_past_end(ns, j);
        }
    }
}

/// A review that does not allow access refuses the check at the namespace it was for: denied when
/// the review completed, failed when it could not be made.
pub proof fn lemma_first_refusal_decides(
    ns: Seq<Seq<char>>,
    verb: Seq<char>,
    at: int,
    answer: ReviewAnswerView,
    rest: Seq<ReviewAnswerView>,
)
    requires
        0 <= at < ns.len(),
        !answer_allows(answer),
    ensures
        run_from(ns, verb, at, StepView::Ask(ns[at]), seq![answer] + rest) == match answer {
            ReviewAnswerView::Failed(reason) => StepView::CheckFailed(ns[at], reason),
            ReviewAnswerView::Completed(_) => StepView::Denied(verb, ns[at]),
        },
{
    let answers = seq![answer] + rest;
    assert(answers[0] == answer);
    assert(answers.drop_first() =~= rest);
    let (j, step) = next_step(ns, verb, at, answer);
    assert(step is Denied || step is CheckFailed);
    lemma_refusal_is_final(ns, verb, j, step, rest);
}

/// A denial or a failed review is final: no later answer turns it into a grant.
pub proof fn lemma_refusal_is_final(
    ns: Seq<Seq<char>>,
    verb: Seq<char>,
    at: int,
    step: StepView,
    answers: Seq<ReviewAnswerView>,
)
    requires
        step is Denied || step is CheckFailed,
    ensures
        run_from(ns, verb, at, step, answers) == step,
{
}

/// A permission check of one verb on a list of namespaces, in progress.
pub struct PermissionCheck {
    namespaces: Vec<String>,
    verb: String,
    at: usize,
}

/// The views of a slice of strings.
pub open spec fn names_view(v: Seq<String>) -> Seq<Seq<char>> {
    v.map_values(|s: String| s@)
}

impl PermissionCheck {
    pub closed spec fn namespaces(self) -> Seq<Seq<char>> {
        names_view(self.namespaces@)
    }

    pub closed spec fn verb(self) -> Seq<char> {
        self.verb@
    }

    /// The index of the namespace the check is at.
    pub closed spec fn at(self) -> int {
        self.at as int
    }

    /// The first index at or after `from` with a non-empty namespace, or the length if none.
    fn find_nonempty(&self, from: usize) -> (j: usize)
        requires
            from <= self.namespaces@.len(),
        ensures
            j == next_nonempty(self.namespaces(), from as int),
            j <= self.namespaces@.len(),
    {
        let ghost ns = self.namespaces();
        let mut j = from;
        proof {
            lemma_next_nonempty_bounds(ns, from as int);
        }
        while j < self.namespaces.len()
            invariant
                ns == self.namespaces(),
                from <= j <= self.namespaces@.len(),
                next_nonempty(ns, j as int) == next_nonempty(ns, from as int),
            decreases self.namespaces@.len() - j,
        {
            assert(ns[j as int] == self.namespaces@[j as int]@);
            if !self.namespaces[j].as_str().is_empty() {
                return j;
            }
            j = j + 1;
        }
        j
    }

    fn step_at(&self, j: usize) -> (r: PermissionStep)
        requires
            j <= self.namespaces@.len(),
        ensures
            r@ == ask_or_grant(self.namespaces(), j as int).1,
    {
        if j >= self.namespaces.len() {
            PermissionStep::Granted
        } else {
            PermissionStep::Ask(self.namespaces[j].clone())
        }
    }

    /// Starts a check of `verb` on `namespaces`.
    pub fn start(namespaces: &[String], verb: &str) -> (r: (PermissionCheck, PermissionStep))
        ensures
            r.0.namespaces() == names_view(namespaces@),
            r.0.verb() == verb@,
            (r.0.at(), r.1@) == first_step(names_view(namespaces@)),
    {
        let mut names: Vec<String> = Vec::new();
        for i in 0..namespaces.len()
            invariant
                names@ == namespaces@.take(i as int),
        {
            names.push(namespaces[i].clone());
            assert(names@ =~= namespaces@.take(i + 1));
        }
        assert(namespaces@.take(namespaces@.len() as int) =~= namespaces@);
        let n = names.len();
        let mut check = PermissionCheck { namespaces: names, verb: verb.to_owned(), at: n };
        let ghost ns = check.namespaces();
        assert(ns == names_view(namespaces@));
        if n == 0 || (n == 1 && check.namespaces[0].as_str().is_empty()) {
            proof {
                if n == 1 {
                    assert(ns[0] == check.namespaces@[0]@);
                }
            }
            return (check, PermissionStep::Granted);
        }
        proof {
            if n == 1 {
                assert(ns[0] == check.namespaces@[0]@);
            }
        }
        let j = check.find_nonempty(0);
        check.at = j;
        let step = check.step_at(j);
        (check, step)
    }

    /// Takes the answer for the namespace the check asked about, and gives the next step.
    pub fn on_answer(&mut self, answer: ReviewAnswer) -> (r: PermissionStep)
        requires
            old(self).at() < old(self).namespaces().len(),
        ensures
            final(self).namespaces() == old(self).namespaces(),
            final(self).verb() == old(self).verb(),
            (final(self).at(), r@) == next_step(
                old(self).namespaces(),
                old(self).verb(),
                old(self).at(),
                answer@,
            ),
    {
        let at = self.at;
        let n = self.namespaces.len();
        assert(self.namespaces()[at as int] == self.namespaces@[at as int]@);
        match answer {
            ReviewAnswer::Failed(reason) => PermissionStep::Refused(
                PermissionError::CheckFailed { namespace: self.namespaces[at].clone(), reason },
            ),
            ReviewAnswer::Completed(Some(true)) => {
                let j = self.find_nonempty(at + 1);
                self.at = j;
                self.step_at(j)
            },
            ReviewAnswer::Completed(_) => PermissionStep::Refused(
                PermissionError::Denied {
                    verb: self.verb.clone(),
                    namespace: self.namespaces[at].clone(),
                },
            ),
        }
    }
}

/// The message of a refusal.
pub open spec fn refusal_message(e: StepView) -> Seq<char> {
    match e {
        StepView::Denied(verb, ns) => "Access denied for verb '"@ + verb + "' on namespace '"@ + ns
            + "'"@,
        StepView::CheckFailed(ns, _) => "Failed to check permissions for namespace: "@ + ns,
        _ => Seq::empty(),
    }
}

impl PermissionError {
    /// The message of this refusal.
    pub fn message(&self) -> (m: String)
        ensures
            m@ == refusal_message(PermissionStep::Refused(*self)@),
    {
        match self {
            PermissionError::Denied { verb, namespace } => {
                let mut m = String::from_str("Access denied for verb '");
                m.append(verb.as_str());
                m.append("' on namespace '");
                m.append(namespace.as_str());
                m.append("'");
                m
            },
            PermissionError::CheckFailed { namespace, reason: _ } => {
                let mut m = String::from_str("Failed to check permissions for namespace: ");
                m.append(namespace.as_str());
                m
            },
        }
    }

    /// Whether this refusal is answered as a permission denial rather than an internal error:
    /// its message mentions `Access denied`.
    pub fn denies_access(&self) -> (r: bool)
        ensures
            r == contains_seq(refusal_message(PermissionStep::Refused(*self)@), "Access denied"@),
    {
        let m = self.message();
        contains(&chars_of(m.as_str()), &chars_of("Access denied"))
    }
}

} // verus!
