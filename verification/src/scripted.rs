//! A GitHub that answers from a script and records what it was asked, so that handlers can be
//! run against answers chosen beforehand.

use std::collections::VecDeque;

use vstd::prelude::*;

use crate::github::GithubError;
use crate::model::{
    CommandRequest, MergeMethod, MergeRequest, PrRecord, RepoRecord, SyncRequest,
    UpdateBranchRequest,
};

verus! {

/// The scripted answers for one kind of call, handed out in order.
pub struct Answers<T> {
    pub queue: VecDeque<T>,
}

impl<T> Answers<T> {
    pub open spec fn left(self) -> Seq<T> {
        self.queue@
    }

    /// No answers yet.
    pub fn new() -> (answers: Answers<T>)
        ensures
            answers.left().len() == 0,
    {
        Answers { queue: VecDeque::new() }
    }

    /// Scripts one more answer, after those already scripted.
    pub fn push(&mut self, answer: T)
        ensures
            final(self).left() == old(self).left().push(answer),
            final(self).queue@ == old(self).queue@.push(answer),
    {
        self.queue.push_back(answer);
    }

    /// Hands out the answer scripted first, if one is left.
    pub fn pop(&mut self) -> (answer: Option<T>)
        ensures
            match answer {
                Some(answer) => old(self).left().len() > 0 && answer == old(self).left()[0]
                    && final(self).left() == old(self).left().skip(1),
                None => old(self).left().len() == 0 && final(self).left() == old(self).left(),
            },
            answer is Some <==> old(self).queue@.len() > 0,
            answer matches Some(first) ==> first == old(self).queue@[0] && final(self).queue@
                == old(self).queue@.skip(1),
    {
        self.queue.pop_front()
    }
}

/// One call made of GitHub, with what it asked for.
#[derive(Debug, PartialEq, Eq)]
pub enum GithubCall {
    FetchSnapshot(SyncRequest),
    ListInstallationRepositories,
    ListDependabotPrs { owner: String, repo: String, repository_id: u64 },
    Merge { request: MergeRequest, merge_method: Option<MergeMethod> },
    PostCommand(CommandRequest),
    UpdateBranch(UpdateBranchRequest),
}

/// Answers each kind of call from its own queue, in the order they were scripted, and records
/// every call made.
pub struct ScriptedGithub {
    pub installation_id: u64,
    pub snapshots: Answers<Result<Option<PrRecord>, GithubError>>,
    pub installation_repositories: Answers<Result<Vec<RepoRecord>, GithubError>>,
    pub dependabot_prs: Answers<Result<Vec<SyncRequest>, GithubError>>,
    pub merges: Answers<Result<String, GithubError>>,
    pub commands: Answers<Result<String, GithubError>>,
    pub branch_updates: Answers<Result<String, GithubError>>,
    pub calls: Vec<GithubCall>,
}

impl ScriptedGithub {
    /// A GitHub with nothing scripted.
    pub fn new(installation_id: u64) -> (github: ScriptedGithub)
        ensures
            github.installation_id == installation_id,
            github.snapshots.left().len() == 0,
            github.installation_repositories.left().len() == 0,
            github.dependabot_prs.left().len() == 0,
            github.merges.left().len() == 0,
            github.commands.left().len() == 0,
            github.branch_updates.left().len() == 0,
            github.calls@.len() == 0,
    {
        ScriptedGithub {
            installation_id,
            snapshots: Answers::new(),
            installation_repositories: Answers::new(),
            dependabot_prs: Answers::new(),
            merges: Answers::new(),
            commands: Answers::new(),
            branch_updates: Answers::new(),
            calls: Vec::new(),
        }
    }

    /// Reads a pull request's snapshot. A call with no answer left is a mistake in the script.
    pub fn fetch_snapshot(&mut self, request: SyncRequest) -> (answer: Result<
        Option<PrRecord>,
        GithubError,
    >)
        requires
            old(self).snapshots.left().len() > 0,
        ensures
            answer == old(self).snapshots.left()[0],
            final(self).snapshots.left() == old(self).snapshots.left().skip(1),
            final(self).calls@ == old(self).calls@.push(GithubCall::FetchSnapshot(request)),
            final(self).installation_id == old(self).installation_id,
            final(self).installation_repositories == old(self).installation_repositories,
            final(self).dependabot_prs == old(self).dependabot_prs,
            final(self).merges == old(self).merges,
            final(self).commands == old(self).commands,
            final(self).branch_updates == old(self).branch_updates,
    {
        self.calls.push(GithubCall::FetchSnapshot(request));
        take(&mut self.snapshots)
    }

    /// Lists the installation's repositories.
    pub fn list_installation_repositories(&mut self) -> (answer: Result<
        Vec<RepoRecord>,
        GithubError,
    >)
        requires
            old(self).installation_repositories.left().len() > 0,
        ensures
            answer == old(self).installation_repositories.left()[0],
            final(self).installation_repositories.left() == old(
                self,
            ).installation_repositories.left().skip(1),
            final(self).calls@ == old(self).calls@.push(GithubCall::ListInstallationRepositories),
            final(self).installation_id == old(self).installation_id,
            final(self).snapshots == old(self).snapshots,
            final(self).dependabot_prs == old(self).dependabot_prs,
            final(self).merges == old(self).merges,
            final(self).commands == old(self).commands,
            final(self).branch_updates == old(self).branch_updates,
    {
        self.calls.push(GithubCall::ListInstallationRepositories);
        take(&mut self.installation_repositories)
    }

    /// Lists a repository's open Dependabot pull requests.
    pub fn list_dependabot_prs(&mut self, owner: &str, repo: &str, repository_id: u64) -> (answer:
        Result<Vec<SyncRequest>, GithubError>)
        requires
            old(self).dependabot_prs.left().len() > 0,
        ensures
            answer == old(self).dependabot_prs.left()[0],
            final(self).dependabot_prs.left() == old(self).dependabot_prs.left().skip(1),
            final(self).calls.len() == old(self).calls.len() + 1,
            final(self).calls@.drop_last() == old(self).calls@,
            final(self).calls@.last() matches GithubCall::ListDependabotPrs {
                owner: asked_owner,
                repo: asked_repo,
                repository_id: asked_id,
            } && asked_owner@ == owner@ && asked_repo@ == repo@ && asked_id == repository_id,
            final(self).installation_id == old(self).installation_id,
            final(self).snapshots == old(self).snapshots,
            final(self).installation_repositories == old(self).installation_repositories,
            final(self).merges == old(self).merges,
            final(self).commands == old(self).commands,
            final(self).branch_updates == old(self).branch_updates,
    {
        self.calls.push(
            GithubCall::ListDependabotPrs {
                owner: owner.to_owned(),
                repo: repo.to_owned(),
                repository_id,
            },
        );
        take(&mut self.dependabot_prs)
    }

    /// Merges a pull request.
    pub fn merge(&mut self, request: MergeRequest, merge_method: Option<MergeMethod>) -> (answer:
        Result<String, GithubError>)
        requires
            old(self).merges.left().len() > 0,
        ensures
            answer == old(self).merges.left()[0],
            final(self).merges.left() == old(self).merges.left().skip(1),
            final(self).calls@ == old(self).calls@.push(
                GithubCall::Merge { request, merge_method },
            ),
            final(self).installation_id == old(self).installation_id,
            final(self).snapshots == old(self).snapshots,
            final(self).installation_repositories == old(self).installation_repositories,
            final(self).dependabot_prs == old(self).dependabot_prs,
            final(self).commands == old(self).commands,
            final(self).branch_updates == old(self).branch_updates,
    {
        self.calls.push(GithubCall::Merge { request, merge_method });
        take(&mut self.merges)
    }

    /// Posts a command on a pull request.
    pub fn post_command(&mut self, request: CommandRequest) -> (answer: Result<
        String,
        GithubError,
    >)
        requires
            old(self).commands.left().len() > 0,
        ensures
            answer == old(self).commands.left()[0],
            final(self).commands.left() == old(self).commands.left().skip(1),
            final(self).calls@ == old(self).calls@.push(GithubCall::PostCommand(request)),
            final(self).installation_id == old(self).installation_id,
            final(self).snapshots == old(self).snapshots,
            final(self).installation_repositories == old(self).installation_repositories,
            final(self).dependabot_prs == old(self).dependabot_prs,
            final(self).merges == old(self).merges,
            final(self).branch_updates == old(self).branch_updates,
    {
        self.calls.push(GithubCall::PostCommand(request));
        take(&mut self.commands)
    }

    /// Updates a pull request's branch.
    pub fn update_branch(&mut self, request: UpdateBranchRequest) -> (answer: Result<
        String,
        GithubError,
    >)
        requires
            old(self).branch_updates.left().len() > 0,
        ensures
            answer == old(self).branch_updates.left()[0],
            final(self).branch_updates.left() == old(self).branch_updates.left().skip(1),
            final(self).calls@ == old(self).calls@.push(GithubCall::UpdateBranch(request)),
            final(self).installation_id == old(self).installation_id,
            final(self).snapshots == old(self).snapshots,
            final(self).installation_repositories == old(self).installation_repositories,
            final(self).dependabot_prs == old(self).dependabot_prs,
            final(self).merges == old(self).merges,
            final(self).commands == old(self).commands,
    {
        self.calls.push(GithubCall::UpdateBranch(request));
        take(&mut self.branch_updates)
    }
}

/// Takes the next answer, which is there.
fn take<T>(answers: &mut Answers<T>) -> (answer: T)
    requires
        old(answers).left().len() > 0,
    ensures
        answer == old(answers).left()[0],
        final(answers).left() == old(answers).left().skip(1),
{
    answers.pop().unwrap()
}

} // verus!
