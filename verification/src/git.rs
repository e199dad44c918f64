//! Finding the commit that a published version was packaged from: the commit
//! that the registry announced, if the default branch holds it, and else the
//! commit behind the version's tag.
//!
//! The decisions are a step function: each step names one question to the
//! repository, and the answer gives the next step. The functions that take a
//! repository ask the questions and follow the steps.

use crate::text::{append_chars, same_text, texts, to_chars, to_text};
use vstd::prelude::*;

verus! {

/// A clone of a repository on disk.
#[verifier::external_type_specification]
#[verifier::external_body]
pub struct ExRepository(git2::Repository);

/// What the repository library reports when a question cannot be answered.
#[verifier::external_type_specification]
#[verifier::external_body]
pub struct ExError(git2::Error);

/// Why no commit was found.
#[derive(Clone, Copy, Debug, PartialEq, Eq, Structural)]
pub enum ResolutionFailure {
    /// The announced commit is neither the head of the default branch nor
    /// one of its ancestors.
    NotInHistory,
    /// No tag is named after the version.
    NoMatchingTag,
    /// Nothing led to a commit that could be loaded.
    Unresolvable,
}

/// Which of the two ways to a commit a resolution may take.
#[derive(Clone, Copy, Debug, PartialEq, Eq, Structural)]
pub enum Scope {
    /// The announced commit only.
    Announced,
    /// The version's tag only.
    Tags,
    /// The announced commit, and the version's tag where that fails.
    Both,
}

/// What a repository tells about a commit besides its id.
#[derive(Clone, Debug, PartialEq, Eq)]
pub struct CommitMeta {
    pub message: String,
    pub timestamp: i64,
}

pub struct CommitMetaView {
    pub message: Seq<char>,
    pub timestamp: i64,
}

impl View for CommitMeta {
    type V = CommitMetaView;

    open spec fn view(&self) -> CommitMetaView {
        CommitMetaView { message: self.message@, timestamp: self.timestamp }
    }
}

/// A commit of the repository: its id of forty characters, its message and
/// the time it was made, in seconds since the epoch.
#[derive(Clone, Debug, PartialEq, Eq)]
pub struct CommitRef {
    pub id: String,
    pub message: String,
    pub timestamp: i64,
}

pub struct CommitRefView {
    pub id: Seq<char>,
    pub message: Seq<char>,
    pub timestamp: i64,
}

impl View for CommitRef {
    type V = CommitRefView;

    open spec fn view(&self) -> CommitRefView {
        CommitRefView { id: self.id@, message: self.message@, timestamp: self.timestamp }
    }
}

/// One step of a resolution: a question to the repository, or the outcome.
#[derive(Debug, PartialEq, Eq)]
pub enum Step {
    /// Is `commit` an ancestor of the head of the default branch?
    CheckAncestry { commit: String },
    /// Load the announced commit.
    LoadAnnounced { commit: String },
    /// List the tags named after the version, with or without a leading `v`.
    ListTags { prefixed: bool },
    /// Which commit does the tag `name` lead to?
    ResolveTag { name: String },
    /// Load the commit that the tag led to.
    LoadTagged { commit: String },
    /// The resolution is over.
    Done(Result<CommitRef, ResolutionFailure>),
}

pub enum StepView {
    CheckAncestry { commit: Seq<char> },
    LoadAnnounced { commit: Seq<char> },
    ListTags { prefixed: bool },
    ResolveTag { name: Seq<char> },
    LoadTagged { commit: Seq<char> },
    Done(Result<CommitRefView, ResolutionFailure>),
}

impl View for Step {
    type V = StepView;

    open spec fn view(&self) -> StepView {
        match self {
            Step::CheckAncestry { commit } => StepView::CheckAncestry { commit: commit@ },
            Step::LoadAnnounced { commit } => StepView::LoadAnnounced { commit: commit@ },
            Step::ListTags { prefixed } => StepView::ListTags { prefixed: *prefixed },
            Step::ResolveTag { name } => StepView::ResolveTag { name: name@ },
            Step::LoadTagged { commit } => StepView::LoadTagged { commit: commit@ },
            Step::Done(Ok(c)) => StepView::Done(Ok(c@)),
            Step::Done(Err(e)) => StepView::Done(Err(*e)),
        }
    }
}

/// A commit id has forty characters.
pub open spec fn is_commit_id(id: Seq<char>) -> bool {
    id.len() == 40
}

/// The commit with the given id and what the repository told about it.
pub open spec fn commit_of(id: Seq<char>, meta: CommitMetaView) -> CommitRefView {
    CommitRefView { id, message: meta.message, timestamp: meta.timestamp }
}

/// The failure to report: a resolution that may take both ways gives up as
/// unresolvable, one that takes a single way says what went wrong on it.
pub open spec fn failure(scope: Scope, kind: ResolutionFailure) -> ResolutionFailure {
    match scope {
        Scope::Both => ResolutionFailure::Unresolvable,
        _ => kind,
    }
}

/// Where a resolution goes when the announced commit leads nowhere: to the
/// tags, unless it is confined to the announced commit.
pub open spec fn without_announced(scope: Scope, kind: ResolutionFailure) -> StepView {
    match scope {
        Scope::Announced => StepView::Done(Err(kind)),
        _ => StepView::ListTags { prefixed: false },
    }
}

/// The first step for an announced commit: the head itself is loaded at
/// once, any other commit id is first checked against the history, and what
/// is no commit id is not in the history.
pub open spec fn step_for_announced(scope: Scope, head: Seq<char>, announced: Seq<char>)
    -> StepView {
    if !is_commit_id(announced) {
        without_announced(scope, ResolutionFailure::NotInHistory)
    } else if announced == head {
        StepView::LoadAnnounced { commit: announced }
    } else {
        StepView::CheckAncestry { commit: announced }
    }
}

/// The first step of a resolution.
pub open spec fn step_at_start(head: Seq<char>, announced: Option<Seq<char>>) -> StepView {
    match announced {
        Some(id) => step_for_announced(Scope::Both, head, id),
        None => StepView::ListTags { prefixed: false },
    }
}

/// The step after the history was asked about the announced commit.
pub open spec fn step_after_ancestry(scope: Scope, commit: Seq<char>, is_ancestor: bool)
    -> StepView {
    if is_ancestor {
        StepView::LoadAnnounced { commit }
    } else {
        without_announced(scope, ResolutionFailure::NotInHistory)
    }
}

/// The step after the announced commit was asked for.
pub open spec fn step_after_announced(
    scope: Scope,
    commit: Seq<char>,
    loaded: Option<CommitMetaView>,
) -> StepView {
    match loaded {
        Some(meta) => StepView::Done(Ok(commit_of(commit, meta))),
        None => without_announced(scope, ResolutionFailure::Unresolvable),
    }
}

/// The tag name that stands for a version: the version itself, or the
/// version after a `v`.
pub open spec fn tag_name(version: Seq<char>, prefixed: bool) -> Seq<char> {
    if prefixed {
        "v"@ + version
    } else {
        version
    }
}

/// The full name of the reference behind a tag.
pub open spec fn tag_reference(name: Seq<char>) -> Seq<char> {
    "refs/tags/"@ + name
}

/// The step after the tags were listed: a tag of exactly the wanted name is
/// resolved; without one, the name with a leading `v` is tried next, once.
pub open spec fn step_after_tags(
    scope: Scope,
    version: Seq<char>,
    prefixed: bool,
    names: Seq<Seq<char>>,
) -> StepView {
    if names.contains(tag_name(version, prefixed)) {
        StepView::ResolveTag { name: tag_name(version, prefixed) }
    } else if !prefixed {
        StepView::ListTags { prefixed: true }
    } else {
        StepView::Done(Err(failure(scope, ResolutionFailure::NoMatchingTag)))
    }
}

/// The step after the tag was resolved.
pub open spec fn step_after_tag_target(target: Option<Seq<char>>) -> StepView {
    match target {
        Some(id) => if is_commit_id(id) {
            StepView::LoadTagged { commit: id }
        } else {
            StepView::Done(Err(ResolutionFailure::Unresolvable))
        },
        None => StepView::Done(Err(ResolutionFailure::Unresolvable)),
    }
}

/// The step after the tagged commit was asked for.
pub open spec fn step_after_tagged(commit: Seq<char>, loaded: Option<CommitMetaView>)
    -> StepView {
    match loaded {
        Some(meta) => StepView::Done(Ok(commit_of(commit, meta))),
        None => StepView::Done(Err(ResolutionFailure::Unresolvable)),
    }
}

/// How many questions a step may still be followed by.
pub open spec fn questions_left(step: StepView) -> nat {
    match step {
        StepView::CheckAncestry { .. } => 6,
        StepView::LoadAnnounced { .. } => 5,
        StepView::ListTags { prefixed } => if prefixed {
            3
        } else {
            4
        },
        StepView::ResolveTag { .. } => 2,
        StepView::LoadTagged { .. } => 1,
        StepView::Done(_) => 0,
    }
}

/// A step is sound for a scope when every commit id in it has forty
/// characters and a failure in it is one that the scope reports.
pub open spec fn sound(scope: Scope, step: StepView) -> bool {
    match step {
        StepView::CheckAncestry { commit } => is_commit_id(commit) && scope != Scope::Tags,
        StepView::LoadAnnounced { commit } => is_commit_id(commit) && scope != Scope::Tags,
        StepView::ListTags { .. } => scope != Scope::Announced,
        StepView::ResolveTag { .. } => scope != Scope::Announced,
        StepView::LoadTagged { commit } => is_commit_id(commit) && scope != Scope::Announced,
        StepView::Done(Ok(c)) => is_commit_id(c.id),
        StepView::Done(Err(e)) => reported(scope, e),
    }
}

/// `next` is a step that `step` leads to for some answer of the repository.
pub open spec fn may_follow(scope: Scope, version: Seq<char>, step: StepView, next: StepView)
    -> bool {
    match step {
        StepView::CheckAncestry { commit } => exists|is_ancestor: bool|
            next == #[trigger] step_after_ancestry(scope, commit, is_ancestor),
        StepView::LoadAnnounced { commit } => exists|loaded: Option<CommitMetaView>|
            next == #[trigger] step_after_announced(scope, commit, loaded),
        StepView::ListTags { prefixed } => exists|names: Seq<Seq<char>>|
            next == #[trigger] step_after_tags(scope, version, prefixed, names),
        StepView::ResolveTag { name } => exists|target: Option<Seq<char>>|
            next == #[trigger] step_after_tag_target(target),
        StepView::LoadTagged { commit } => exists|loaded: Option<CommitMetaView>|
            next == #[trigger] step_after_tagged(commit, loaded),
        StepView::Done(_) => next == step,
    }
}

/// `outcome` is what a resolution can end with when it stands at `step`
/// and asks no more than `questions` questions: the step is over with that
/// outcome, or a step that may follow it leads there with one question less.
pub open spec fn leads_to(
    scope: Scope,
    version: Seq<char>,
    step: StepView,
    outcome: Result<CommitRefView, ResolutionFailure>,
    questions: nat,
) -> bool
    decreases questions,
{
    step == StepView::Done(outcome) || (questions > 0 && !(step is Done) && exists|
        next: StepView,
    |
        #[trigger] may_follow(scope, version, step, next) && leads_to(
            scope,
            version,
            next,
            outcome,
            (questions - 1) as nat,
        ))
}

/// An outcome as the steps speak of it.
pub open spec fn outcome_of(outcome: Result<CommitRef, ResolutionFailure>) -> Result<
    CommitRefView,
    ResolutionFailure,
> {
    match outcome {
        Ok(c) => Ok(c@),
        Err(e) => Err(e),
    }
}

/// The failures that a resolution of the given scope reports.
pub open spec fn reported(scope: Scope, e: ResolutionFailure) -> bool {
    match scope {
        Scope::Both => e == ResolutionFailure::Unresolvable,
        Scope::Announced => e != ResolutionFailure::NoMatchingTag,
        Scope::Tags => e != ResolutionFailure::NotInHistory,
    }
}

fn give_up(scope: Scope, kind: ResolutionFailure) -> (e: ResolutionFailure)
    ensures
        e == failure(scope, kind),
{
    match scope {
        Scope::Both => ResolutionFailure::Unresolvable,
        _ => kind,
    }
}

fn go_without_announced(scope: Scope, kind: ResolutionFailure) -> (step: Step)
    ensures
        step@ == without_announced(scope, kind),
{
    match scope {
        Scope::Announced => Step::Done(Err(kind)),
        _ => Step::ListTags { prefixed: false },
    }
}

/// Whether a text has the length of a commit id.
pub fn has_commit_id_length(id: &str) -> (yes: bool)
    ensures
        yes == is_commit_id(id@),
{
    to_chars(id).len() == 40
}

/// The first step for an announced commit.
pub fn first_step_for_announced(scope: Scope, head: &str, announced: &str) -> (step: Step)
    ensures
        step@ == step_for_announced(scope, head@, announced@),
{
    if !has_commit_id_length(announced) {
        go_without_announced(scope, ResolutionFailure::NotInHistory)
    } else if same_text(announced, head) {
        Step::LoadAnnounced { commit: announced.to_owned() }
    } else {
        Step::CheckAncestry { commit: announced.to_owned() }
    }
}

/// The first step of a resolution.
pub fn first_step(head: &str, announced: Option<&str>) -> (step: Step)
    ensures
        step@ == step_at_start(
            head@,
            match announced {
                Some(id) => Some(id@),
                None => None,
            },
        ),
{
    match announced {
        Some(id) => first_step_for_announced(Scope::Both, head, id),
        None => Step::ListTags { prefixed: false },
    }
}

/// The step after the history was asked about the announced commit.
pub fn after_ancestry(scope: Scope, commit: String, is_ancestor: bool) -> (step: Step)
    ensures
        step@ == step_after_ancestry(scope, commit@, is_ancestor),
{
    if is_ancestor {
        Step::LoadAnnounced { commit }
    } else {
        go_without_announced(scope, ResolutionFailure::NotInHistory)
    }
}

/// The step after the announced commit was asked for.
pub fn after_announced(scope: Scope, commit: String, loaded: Option<CommitMeta>) -> (step: Step)
    ensures
        step@ == step_after_announced(
            scope,
            commit@,
            match loaded {
                Some(m) => Some(m@),
                None => None,
            },
        ),
{
    match loaded {
        Some(meta) => Step::Done(
            Ok(CommitRef { id: commit, message: meta.message, timestamp: meta.timestamp }),
        ),
        None => go_without_announced(scope, ResolutionFailure::Unresolvable),
    }
}

/// The tag name that stands for a version.
pub fn tag_name_for(version: &str, prefixed: bool) -> (name: String)
    ensures
        name@ == tag_name(version@, prefixed),
{
    let mut name: Vec<char> = Vec::new();
    if prefixed {
        append_chars(&mut name, &to_chars("v"));
    }
    append_chars(&mut name, &to_chars(version));
    to_text(&name)
}

/// The full name of the reference behind a tag.
pub fn tag_reference_for(name: &str) -> (reference: String)
    ensures
        reference@ == tag_reference(name@),
{
    let mut reference = to_chars("refs/tags/");
    append_chars(&mut reference, &to_chars(name));
    to_text(&reference)
}

/// Whether a list of names holds exactly the given name.
pub fn holds_name(names: &Vec<String>, wanted: &str) -> (yes: bool)
    ensures
        yes == texts(names@).contains(wanted@),
{
    let mut i: usize = 0;
    while i < names.len()
        invariant
            i <= names.len(),
            forall|j: int| 0 <= j < i ==> texts(names@)[j] != wanted@,
        decreases names.len() - i,
    {
        if same_text(names[i].as_str(), wanted) {
            assert(texts(names@)[i as int] == wanted@);
            return true;
        }
        i += 1;
    }
    false
}

/// The step after the tags were listed.
pub fn after_tags(scope: Scope, version: &str, prefixed: bool, names: &Vec<String>) -> (step:
    Step)
    ensures
        step@ == step_after_tags(scope, version@, prefixed, texts(names@)),
{
    let wanted = tag_name_for(version, prefixed);
    if holds_name(names, wanted.as_str()) {
        Step::ResolveTag { name: wanted }
    } else if !prefixed {
        Step::ListTags { prefixed: true }
    } else {
        Step::Done(Err(give_up(scope, ResolutionFailure::NoMatchingTag)))
    }
}

/// The step after the tag was resolved.
pub fn after_tag_target(target: Option<String>) -> (step: Step)
    ensures
        step@ == step_after_tag_target(
            match target {
                Some(id) => Some(id@),
                None => None,
            },
        ),
{
    match target {
        Some(id) => {
            if has_commit_id_length(id.as_str()) {
                Step::LoadTagged { commit: id }
            } else {
                Step::Done(Err(ResolutionFailure::Unresolvable))
            }
        },
        None => Step::Done(Err(ResolutionFailure::Unresolvable)),
    }
}

/// The step after the tagged commit was asked for.
pub fn after_tagged(commit: String, loaded: Option<CommitMeta>) -> (step: Step)
    ensures
        step@ == step_after_tagged(
            commit@,
            match loaded {
                Some(m) => Some(m@),
                None => None,
            },
        ),
{
    match loaded {
        Some(meta) => Step::Done(
            Ok(CommitRef { id: commit, message: meta.message, timestamp: meta.timestamp }),
        ),
        None => Step::Done(Err(ResolutionFailure::Unresolvable)),
    }
}

/// `git2::Oid::from_str` on both ids, then `git2::Repository::graph_descendant_of`.
/// The answer is read from the clone on disk: nothing is claimed about it.
#[verifier::external_body]
fn graph_descendant_of(repository: &git2::Repository, commit: &str, ancestor: &str) -> Result<
    bool,
    git2::Error,
> {
    let commit = git2::Oid::from_str(commit)?;
    let ancestor = git2::Oid::from_str(ancestor)?;
    repository.graph_descendant_of(commit, ancestor)
}

/// `git2::Oid::from_str`, then `git2::Repository::find_commit`, then
/// `Commit::message_bytes` and `Commit::time` on the commit found. The answer
/// is read from the clone on disk: nothing is claimed about it.
#[verifier::external_body]
fn find_commit(repository: &git2::Repository, id: &str) -> Result<CommitMeta, git2::Error> {
    let commit = repository.find_commit(git2::Oid::from_str(id)?)?;
    Ok(
        CommitMeta {
            message: String::from_utf8_lossy(commit.message_bytes()).into_owned(),
            timestamp: commit.time().seconds(),
        },
    )
}

/// `git2::Repository::tag_names` with a pattern. The answer is read from the
/// clone on disk: nothing is claimed about it.
#[verifier::external_body]
fn tag_names(repository: &git2::Repository, pattern: &str) -> Result<Vec<String>, git2::Error> {
    let names = repository.tag_names(Some(pattern))?;
    Ok(names.iter_bytes().map(|n| String::from_utf8_lossy(n).into_owned()).collect())
}

/// `git2::Repository::find_reference`, then `Reference::peel_to_commit` and
/// `Commit::id`: the id of the commit that a reference leads to. The answer
/// is read from the clone on disk: nothing is claimed about it.
#[verifier::external_body]
fn reference_target(repository: &git2::Repository, reference: &str) -> Result<
    String,
    git2::Error,
> {
    let commit = repository.find_reference(reference)?.peel_to_commit()?;
    Ok(commit.id().to_string())
}

/// Asks the repository the question of a step and gives the step that the
/// answer leads to. A question that the repository cannot answer counts as
/// answered in the negative.
fn follow(repository: &git2::Repository, head: &str, version: &str, scope: Scope, step: Step)
    -> (next: Step)
    requires
        sound(scope, step@),
        !(step@ is Done),
    ensures
        may_follow(scope, version@, step@, next@),
        sound(scope, next@),
        questions_left(next@) < questions_left(step@),
{
    match step {
        Step::CheckAncestry { commit } => {
            let is_ancestor = match graph_descendant_of(repository, head, commit.as_str()) {
                Ok(answer) => answer,
                Err(_) => false,
            };
            after_ancestry(scope, commit, is_ancestor)
        },
        Step::LoadAnnounced { commit } => {
            let loaded = match find_commit(repository, commit.as_str()) {
                Ok(meta) => Some(meta),
                Err(_) => None,
            };
            after_announced(scope, commit, loaded)
        },
        Step::ListTags { prefixed } => {
            let pattern = tag_name_for(version, prefixed);
            let names = match tag_names(repository, pattern.as_str()) {
                Ok(names) => names,
                Err(_) => Vec::new(),
            };
            after_tags(scope, version, prefixed, &names)
        },
        Step::ResolveTag { name } => {
            let reference = tag_reference_for(name.as_str());
            let target = match reference_target(repository, reference.as_str()) {
                Ok(id) => Some(id),
                Err(_) => None,
            };
            after_tag_target(target)
        },
        Step::LoadTagged { commit } => {
            let loaded = match find_commit(repository, commit.as_str()) {
                Ok(meta) => Some(meta),
                Err(_) => None,
            };
            after_tagged(commit, loaded)
        },
        Step::Done(outcome) => Step::Done(outcome),
    }
}

/// Follows the steps from `first` to the outcome: every question is put to
/// the repository, and its answer decides the next step.
fn run(repository: &git2::Repository, head: &str, version: &str, scope: Scope, first: Step)
    -> (outcome: Result<CommitRef, ResolutionFailure>)
    requires
        sound(scope, first@),
    ensures
        leads_to(scope, version@, first@, outcome_of(outcome), questions_left(first@)),
        sound(scope, StepView::Done(outcome_of(outcome))),
    decreases questions_left(first@),
{
    match first {
        Step::Done(outcome) => outcome,
        question => {
            let ghost asked = question@;
            let next = follow(repository, head, version, scope, question);
            let outcome = run(repository, head, version, scope, next);
            proof {
                lemma_more_questions(
                    scope,
                    version@,
                    next@,
                    outcome_of(outcome),
                    questions_left(next@),
                    (questions_left(asked) - 1) as nat,
                );
                assert(may_follow(scope, version@, asked, next@));
            }
            outcome
        },
    }
}

/// What can be reached with some questions can be reached with more.
pub proof fn lemma_more_questions(
    scope: Scope,
    version: Seq<char>,
    step: StepView,
    outcome: Result<CommitRefView, ResolutionFailure>,
    few: nat,
    many: nat,
)
    requires
        leads_to(scope, version, step, outcome, few),
        few <= many,
    ensures
        leads_to(scope, version, step, outcome, many),
    decreases few,
{
    if step != StepView::Done(outcome) {
        let next = choose|next: StepView|
            #[trigger] may_follow(scope, version, step, next) && leads_to(
                scope,
                version,
                next,
                outcome,
                (few - 1) as nat,
            );
        lemma_more_questions(scope, version, next, outcome, (few - 1) as nat, (many - 1) as nat);
    }
}

/// Whatever the repository answers, the step that follows a sound step is
/// sound and has fewer questions left: a resolution ends after six
/// questions at most, and with nothing but a commit id of forty characters
/// or a failure of its scope.
pub proof fn lemma_following_is_sound(
    scope: Scope,
    version: Seq<char>,
    step: StepView,
    next: StepView,
)
    requires
        sound(scope, step),
        !(step is Done),
        may_follow(scope, version, step, next),
    ensures
        sound(scope, next),
        questions_left(next) < questions_left(step),
{
}

/// A resolution that is confined to the announced commit ends with that
/// commit or with a failure, whatever the repository answers.
pub proof fn lemma_announced_outcome(
    version: Seq<char>,
    head: Seq<char>,
    announced: Seq<char>,
    commit: CommitRefView,
    questions: nat,
)
    requires
        leads_to(
            Scope::Announced,
            version,
            step_for_announced(Scope::Announced, head, announced),
            Ok(commit),
            questions,
        ),
    ensures
        commit.id == announced,
        is_commit_id(announced),
{
    let scope = Scope::Announced;
    let first = step_for_announced(scope, head, announced);
    assert(!(first is Done));
    let second = choose|next: StepView|
        #[trigger] may_follow(scope, version, first, next) && leads_to(
            scope,
            version,
            next,
            Ok(commit),
            (questions - 1) as nat,
        );
    if second != StepView::Done(Ok(commit)) {
        assert(second == (StepView::LoadAnnounced { commit: announced }));
        let third = choose|next: StepView|
            #[trigger] may_follow(scope, version, second, next) && leads_to(
                scope,
                version,
                next,
                Ok(commit),
                (questions - 2) as nat,
            );
        assert(third is Done);
    }
}

/// Whether a commit belongs to the history of the default branch: it is the
/// head, or the repository said that the head descends from it. `answer` is
/// what the repository said, and `None` where it could not say.
pub open spec fn in_history(head: Seq<char>, commit: Seq<char>, answer: Option<bool>) -> bool {
    commit == head || answer == Some(true)
}

/// Whether a commit belongs to the history of the default branch, given
/// what the repository said about its ancestry.
pub fn belongs_to_history(head: &str, commit_sha1: &str, answer: Option<bool>) -> (accepted: bool)
    ensures
        accepted == in_history(head@, commit_sha1@, answer),
{
    if same_text(commit_sha1, head) {
        return true;
    }
    match answer {
        Some(is_ancestor) => is_ancestor,
        None => false,
    }
}

/// Whether a commit is the head of the default branch or one of its
/// ancestors. The head is recognized without asking the repository.
pub fn is_commit_head_or_head_ancestor(
    repository: &git2::Repository,
    head: &str,
    commit_sha1: &str,
) -> (accepted: bool)
    ensures
        commit_sha1@ == head@ ==> accepted,
{
    if same_text(commit_sha1, head) {
        return belongs_to_history(head, commit_sha1, None);
    }
    let answer = match graph_descendant_of(repository, head, commit_sha1) {
        Ok(is_ancestor) => Some(is_ancestor),
        Err(_) => None,
    };
    belongs_to_history(head, commit_sha1, answer)
}

/// The announced commit, if the default branch holds it and it can be
/// loaded. What is no commit id, or not in the history, is `NotInHistory`;
/// a commit of the history that cannot be loaded is `Unresolvable`.
pub fn find_announced_commit(repository: &git2::Repository, head: &str, announced: &str)
    -> (outcome: Result<CommitRef, ResolutionFailure>)
    ensures
        leads_to(
            Scope::Announced,
            ""@,
            step_for_announced(Scope::Announced, head@, announced@),
            outcome_of(outcome),
            6,
        ),
        match outcome {
            Ok(c) => c.id@ == announced@ && is_commit_id(announced@),
            Err(e) => e != ResolutionFailure::NoMatchingTag,
        },
        !is_commit_id(announced@) ==> outcome == Err::<CommitRef, ResolutionFailure>(
            ResolutionFailure::NotInHistory,
        ),
{
    let first = first_step_for_announced(Scope::Announced, head, announced);
    let outcome = run(repository, head, "", Scope::Announced, first);
    proof {
        lemma_more_questions(
            Scope::Announced,
            ""@,
            step_for_announced(Scope::Announced, head@, announced@),
            outcome_of(outcome),
            questions_left(step_for_announced(Scope::Announced, head@, announced@)),
            6,
        );
        if outcome is Ok {
            lemma_announced_outcome(""@, head@, announced@, outcome_of(outcome)->Ok_0, 6);
        }
    }
    outcome
}

/// The commit behind the tag that is named after the version, with or
/// without a leading `v`. Without such a tag the failure is `NoMatchingTag`;
/// a tag that leads to no loadable commit is `Unresolvable`.
pub fn find_commit_from_git_tag(crate_version: &str, repository: &git2::Repository) -> (outcome:
    Result<CommitRef, ResolutionFailure>)
    ensures
        leads_to(
            Scope::Tags,
            crate_version@,
            StepView::ListTags { prefixed: false },
            outcome_of(outcome),
            4,
        ),
        match outcome {
            Ok(c) => is_commit_id(c.id@),
            Err(e) => e != ResolutionFailure::NotInHistory,
        },
{
    run(repository, "", crate_version, Scope::Tags, Step::ListTags { prefixed: false })
}

/// The commit that a published version stands for: the announced commit
/// where the default branch holds it and it loads, else the commit behind
/// the version's tag. Where neither leads to a commit the failure is
/// `Unresolvable`, and the caller goes on with the head of the default branch.
pub fn resolve_commit(
    repository: &git2::Repository,
    head: &str,
    announced_id: Option<&str>,
    version: &str,
) -> (outcome: Result<CommitRef, ResolutionFailure>)
    ensures
        leads_to(
            Scope::Both,
            version@,
            step_at_start(
                head@,
                match announced_id {
                    Some(id) => Some(id@),
                    None => None,
                },
            ),
            outcome_of(outcome),
            6,
        ),
        match outcome {
            Ok(c) => is_commit_id(c.id@),
            Err(e) => e == ResolutionFailure::Unresolvable,
        },
{
    let first = first_step(head, announced_id);
    let ghost start = first@;
    let outcome = run(repository, head, version, Scope::Both, first);
    proof {
        lemma_more_questions(
            Scope::Both,
            version@,
            start,
            outcome_of(outcome),
            questions_left(start),
            6,
        );
    }
    outcome
}

/// When the announced commit is the head of the default branch, the
/// resolution asks for that commit and, once it is loaded, is over with it:
/// no tag is listed or resolved on the way.
pub proof fn lemma_head_needs_no_tag(head: Seq<char>, meta: CommitMetaView)
    requires
        is_commit_id(head),
    ensures
        step_at_start(head, Some(head)) == (StepView::LoadAnnounced { commit: head }),
        step_after_announced(Scope::Both, head, Some(meta)) == StepView::Done(
            Ok(commit_of(head, meta)),
        ),
{
}

/// When the announced commit is an ancestor of the head, the resolution
/// checks the history, asks for the commit and, once it is loaded, is over
/// with a commit whose id is the announced one.
pub proof fn lemma_ancestor_is_resolved(
    head: Seq<char>,
    announced: Seq<char>,
    meta: CommitMetaView,
)
    requires
        is_commit_id(announced),
        announced != head,
    ensures
        step_at_start(head, Some(announced)) == (StepView::CheckAncestry { commit: announced }),
        step_after_ancestry(Scope::Both, announced, true) == (StepView::LoadAnnounced {
            commit: announced,
        }),
        step_after_announced(Scope::Both, announced, Some(meta)) matches StepView::Done(Ok(c))
            && c.id == announced,
{
}

/// Without an announced commit, a tag named after the version leads to the
/// commit behind it: the tags are listed, the tag is resolved, and the
/// commit it leads to is the outcome once it is loaded.
pub proof fn lemma_tag_is_resolved(
    version: Seq<char>,
    prefixed: bool,
    names: Seq<Seq<char>>,
    target: Seq<char>,
    meta: CommitMetaView,
)
    requires
        names.contains(tag_name(version, prefixed)),
        is_commit_id(target),
    ensures
        step_at_start(Seq::empty(), None) == (StepView::ListTags { prefixed: false }),
        step_after_tags(Scope::Both, version, prefixed, names) == (StepView::ResolveTag {
            name: tag_name(version, prefixed),
        }),
        step_after_tag_target(Some(target)) == (StepView::LoadTagged { commit: target }),
        step_after_tagged(target, Some(meta)) == StepView::Done(Ok(commit_of(target, meta))),
{
}

/// What a repository holds, as far as a resolution asks about it: the
/// commits that the head of the default branch descends from, the commits
/// that can be loaded, and the commit that each tag leads to.
pub struct History {
    pub ancestors: Set<Seq<char>>,
    pub commits: Map<Seq<char>, CommitMetaView>,
    pub tags: Map<Seq<char>, Seq<char>>,
}

/// What a repository with the given history tells about a commit.
pub open spec fn loaded_from(history: History, commit: Seq<char>) -> Option<CommitMetaView> {
    if history.commits.contains_key(commit) {
        Some(history.commits[commit])
    } else {
        None
    }
}

/// The tags that a repository with the given history lists under a name.
pub open spec fn listed_in(history: History, name: Seq<char>) -> Seq<Seq<char>> {
    if history.tags.contains_key(name) {
        seq![name]
    } else {
        Seq::empty()
    }
}

/// The commit that a tag leads to in a repository with the given history.
pub open spec fn target_in(history: History, name: Seq<char>) -> Option<Seq<char>> {
    if history.tags.contains_key(name) {
        Some(history.tags[name])
    } else {
        None
    }
}

/// The step that follows `step` in a repository with the given history.
pub open spec fn step_in(history: History, scope: Scope, version: Seq<char>, step: StepView)
    -> StepView {
    match step {
        StepView::CheckAncestry { commit } => step_after_ancestry(
            scope,
            commit,
            history.ancestors.contains(commit),
        ),
        StepView::LoadAnnounced { commit } => step_after_announced(
            scope,
            commit,
            loaded_from(history, commit),
        ),
        StepView::ListTags { prefixed } => step_after_tags(
            scope,
            version,
            prefixed,
            listed_in(history, tag_name(version, prefixed)),
        ),
        StepView::ResolveTag { name } => step_after_tag_target(target_in(history, name)),
        StepView::LoadTagged { commit } => step_after_tagged(commit, loaded_from(history, commit)),
        StepView::Done(_) => step,
    }
}

/// The outcome of the steps from `step` on in a repository with the given history.
pub open spec fn resolution_from(
    history: History,
    scope: Scope,
    version: Seq<char>,
    step: StepView,
    questions: nat,
) -> Result<CommitRefView, ResolutionFailure>
    decreases questions,
{
    match step {
        StepView::Done(outcome) => outcome,
        _ => if questions == 0 {
            Err(ResolutionFailure::Unresolvable)
        } else {
            resolution_from(
                history,
                scope,
                version,
                step_in(history, scope, version, step),
                (questions - 1) as nat,
            )
        },
    }
}

/// The commit that a published version stands for in a repository with the
/// given history.
pub open spec fn resolution(
    history: History,
    head: Seq<char>,
    announced: Option<Seq<char>>,
    version: Seq<char>,
) -> Result<CommitRefView, ResolutionFailure> {
    resolution_from(history, Scope::Both, version, step_at_start(head, announced), 6)
}

/// The head, announced and loadable, is the resolution, whatever tags the
/// repository holds: they are not looked at.
pub proof fn lemma_resolution_of_head(history: History, head: Seq<char>, version: Seq<char>)
    requires
        is_commit_id(head),
        history.commits.contains_key(head),
    ensures
        resolution(history, head, Some(head), version) == Ok::<CommitRefView, ResolutionFailure>(
            commit_of(head, history.commits[head]),
        ),
        forall|other: History|
            other.commits == history.commits ==> #[trigger] resolution(
                other,
                head,
                Some(head),
                version,
            ) == resolution(history, head, Some(head), version),
{
    reveal_with_fuel(resolution_from, 3);
}

/// An announced commit that the head descends from, and that can be
/// loaded, is the resolution: the commit returned has the announced id.
pub proof fn lemma_resolution_of_ancestor(
    history: History,
    head: Seq<char>,
    announced: Seq<char>,
    version: Seq<char>,
)
    requires
        is_commit_id(announced),
        announced != head,
        history.ancestors.contains(announced),
        history.commits.contains_key(announced),
    ensures
        resolution(history, head, Some(announced), version) == Ok::<
            CommitRefView,
            ResolutionFailure,
        >(commit_of(announced, history.commits[announced])),
{
    reveal_with_fuel(resolution_from, 4);
}

/// Without an announced commit, the resolution is the commit behind the
/// tag named after the version, and behind the tag with a leading `v` where
/// no tag has the plain name.
pub proof fn lemma_resolution_by_tag(history: History, head: Seq<char>, version: Seq<char>)
    requires
        history.tags.contains_key(version) || history.tags.contains_key("v"@ + version),
        ({
            let name = if history.tags.contains_key(version) {
                version
            } else {
                "v"@ + version
            };
            is_commit_id(history.tags[name]) && history.commits.contains_key(history.tags[name])
        }),
    ensures
        ({
            let name = if history.tags.contains_key(version) {
                version
            } else {
                "v"@ + version
            };
            resolution(history, head, None, version) == Ok::<CommitRefView, ResolutionFailure>(
                commit_of(history.tags[name], history.commits[history.tags[name]]),
            )
        }),
{
    reveal_with_fuel(resolution_from, 6);
    let plain = listed_in(history, tag_name(version, false));
    let prefixed = listed_in(history, tag_name(version, true));
    if history.tags.contains_key(version) {
        assert(plain[0] == version);
    } else {
        assert(prefixed[0] == "v"@ + version);
    }
}

/// Without an announced commit and without a tag named after the version,
/// with or without a leading `v`, nothing is resolved.
pub proof fn lemma_resolution_without_tag(history: History, head: Seq<char>, version: Seq<char>)
    requires
        !history.tags.contains_key(version),
        !history.tags.contains_key("v"@ + version),
    ensures
        resolution(history, head, None, version) == Err::<CommitRefView, ResolutionFailure>(
            ResolutionFailure::Unresolvable,
        ),
{
    reveal_with_fuel(resolution_from, 4);
}

/// The resolution in a repository with a given history is among the
/// outcomes that the steps allow.
pub proof fn lemma_resolution_is_allowed(
    history: History,
    scope: Scope,
    version: Seq<char>,
    step: StepView,
    questions: nat,
)
    requires
        sound(scope, step),
        questions_left(step) <= questions,
    ensures
        leads_to(
            scope,
            version,
            step,
            resolution_from(history, scope, version, step, questions),
            questions,
        ),
    decreases questions,
{
    if !(step is Done) {
        let next = step_in(history, scope, version, step);
        assert(may_follow(scope, version, step, next));
        lemma_following_is_sound(scope, version, step, next);
        lemma_resolution_is_allowed(history, scope, version, next, (questions - 1) as nat);
    }
}

} // verus!
