//! How a step or a handler fails: for good, or in a way worth another attempt.

use vstd::prelude::*;

verus! {

/// A failure worth retrying. Once the retry budget is spent its message is the terminal
/// failure's, so it reads well on its own.
#[derive(Debug, PartialEq, Eq)]
pub enum RetryableServiceError {
    Github(String),
    Store(String),
    /// The finished batch's record met a failure the store does not expect to clear on its
    /// own, and is retried regardless, since nothing later would redo it.
    StoreRefusedRecord(String),
}

impl RetryableServiceError {
    pub open spec fn spec_text(self) -> Seq<char> {
        match self {
            RetryableServiceError::Github(cause) => "transient GitHub failure: "@ + cause@,
            RetryableServiceError::Store(cause) => "transient projection-store failure: "@ + cause@,
            RetryableServiceError::StoreRefusedRecord(cause) =>
                "batch record met a terminal-class store error; retrying regardless: "@ + cause@,
        }
    }

    pub fn text(&self) -> (text: String)
        ensures
            text@ == self.spec_text(),
    {
        match self {
            RetryableServiceError::Github(cause) => {
                let mut text = "transient GitHub failure: ".to_owned();
                text.append(cause.as_str());
                text
            },
            RetryableServiceError::Store(cause) => {
                let mut text = "transient projection-store failure: ".to_owned();
                text.append(cause.as_str());
                text
            },
            RetryableServiceError::StoreRefusedRecord(cause) => {
                let mut text =
                    "batch record met a terminal-class store error; retrying regardless: ".to_owned();
                text.append(cause.as_str());
                text
            },
        }
    }
}

/// How a step or a handler fails.
#[derive(Debug, PartialEq, Eq)]
pub enum Fault {
    Retryable(RetryableServiceError),
    Terminal(String),
}

impl Fault {
    pub open spec fn spec_message(self) -> Seq<char> {
        match self {
            Fault::Retryable(error) => error.spec_text(),
            Fault::Terminal(message) => message@,
        }
    }

    pub fn message(&self) -> (message: String)
        ensures
            message@ == self.spec_message(),
    {
        match self {
            Fault::Retryable(error) => error.text(),
            Fault::Terminal(message) => message.clone(),
        }
    }
}

/// Fails for good with a message.
pub open spec fn terminal<T>(result: Result<T, Fault>, message: Seq<char>) -> bool {
    result matches Err(Fault::Terminal(said)) && said@ == message
}

/// A backoff: it starts at `initial_delay_millis`, grows by `factor` up to
/// `max_delay_millis`, and gives up after `max_duration_millis`, if at all.
#[derive(Clone, Copy, Debug, PartialEq, Eq, Structural)]
pub struct RetryPolicy {
    pub initial_delay_millis: u64,
    pub factor: u64,
    pub max_delay_millis: u64,
    pub max_duration_millis: Option<u64>,
}

/// Whether the store expects a failure of its own to clear.
#[derive(Clone, Copy, Debug, PartialEq, Eq, Structural)]
pub enum StoreErrorClass {
    Retryable,
    Terminal,
}

/// What kind of write a store step is: whether anything later would redo it, and whether
/// the work waits on it. The retry budget and the reading of a failure go together.
#[derive(Clone, Copy, Debug, PartialEq, Eq, Structural)]
pub enum StoreStepKind {
    /// A write something later would redo.
    Ordinary,
    /// A convenience that stands in the way of the work.
    Brief,
    /// The write nothing would redo.
    LastChance,
}

impl StoreStepKind {
    /// How long a kind of write is kept at, in milliseconds.
    pub open spec fn budget(self) -> Option<u64> {
        match self {
            StoreStepKind::Ordinary => Some(300_000u64),
            StoreStepKind::Brief => Some(15_000u64),
            StoreStepKind::LastChance => None,
        }
    }

    /// The backoff a kind of write is made under: from 100ms to five seconds for all three,
    /// which differ only in how long they keep at it.
    pub fn retry_policy(self) -> (policy: RetryPolicy)
        ensures
            policy == (RetryPolicy {
                initial_delay_millis: 100,
                factor: 2,
                max_delay_millis: 5_000,
                max_duration_millis: self.budget(),
            }),
    {
        let max_duration_millis: Option<u64> = match self {
            StoreStepKind::Ordinary => Some(300_000),
            StoreStepKind::Brief => Some(15_000),
            StoreStepKind::LastChance => None,
        };
        RetryPolicy {
            initial_delay_millis: 100,
            factor: 2,
            max_delay_millis: 5_000,
            max_duration_millis,
        }
    }

    /// How a failure of the store's reads for a kind of write. The store has the word for a
    /// write something later would redo; the last chance is retried whatever the store says.
    pub fn read_failure(self, class: StoreErrorClass, message: String) -> (fault: Fault)
        ensures
            fault == (match (self, class) {
                (_, StoreErrorClass::Retryable) => Fault::Retryable(
                    RetryableServiceError::Store(message),
                ),
                (StoreStepKind::LastChance, StoreErrorClass::Terminal) => Fault::Retryable(
                    RetryableServiceError::StoreRefusedRecord(message),
                ),
                (_, StoreErrorClass::Terminal) => Fault::Terminal(message),
            }),
    {
        match class {
            StoreErrorClass::Retryable => Fault::Retryable(RetryableServiceError::Store(message)),
            StoreErrorClass::Terminal => match self {
                StoreStepKind::Ordinary | StoreStepKind::Brief => Fault::Terminal(message),
                StoreStepKind::LastChance => Fault::Retryable(
                    RetryableServiceError::StoreRefusedRecord(message),
                ),
            },
        }
    }
}

/// A write is given up exactly where the store's word can end it: the kind without a budget
/// is the kind no failure of the store's ends.
pub proof fn law_a_write_without_a_budget_never_fails_for_good(
    kind: StoreStepKind,
    class: StoreErrorClass,
    message: String,
    fault: Fault,
)
    requires
        call_ensures(StoreStepKind::read_failure, (kind, class, message), fault),
    ensures
        kind.budget() is None ==> fault is Retryable,
        class is Terminal ==> (fault is Terminal <==> kind.budget() is Some),
{
}

/// A write that something later would redo is kept at for five minutes, one that the work waits
/// on for fifteen seconds, and the one that nothing would redo for as long as it takes; all from
/// a tenth of a second to five seconds apart, doubling.
pub proof fn law_how_long_each_kind_of_write_is_kept_at(kind: StoreStepKind, policy: RetryPolicy)
    requires
        call_ensures(StoreStepKind::retry_policy, (kind,), policy),
    ensures
        policy.initial_delay_millis == 100,
        policy.factor == 2,
        policy.max_delay_millis == 5 * 1_000,
        kind is Ordinary ==> (policy.max_duration_millis matches Some(millis) && millis == 5 * 60
            * 1_000),
        kind is Brief ==> (policy.max_duration_millis matches Some(millis) && millis == 15
            * 1_000),
        kind is LastChance ==> policy.max_duration_millis is None,
{
}

/// A failure that the store expects to clear is retried, whatever is being written; one that it
/// does not expect to clear ends every write but the last chance. The store's words are kept.
pub proof fn law_the_store_has_the_word_but_for_the_last_chance(
    kind: StoreStepKind,
    class: StoreErrorClass,
    message: String,
    fault: Fault,
)
    requires
        call_ensures(StoreStepKind::read_failure, (kind, class, message), fault),
    ensures
        class is Retryable ==> fault == Fault::Retryable(RetryableServiceError::Store(message)),
        class is Terminal && kind is LastChance ==> fault == Fault::Retryable(
            RetryableServiceError::StoreRefusedRecord(message),
        ),
        class is Terminal && kind !is LastChance ==> fault == Fault::Terminal(message),
{
}

/// What a fault says: a terminal one its own words, and one worth retrying what it was that
/// failed, and the cause.
pub proof fn law_what_a_fault_says(
    cause: String,
    terminal: String,
    github: String,
    store: String,
    record: String,
)
    requires
        call_ensures(Fault::message, (&Fault::Terminal(cause),), terminal),
        call_ensures(
            Fault::message,
            (&Fault::Retryable(RetryableServiceError::Github(cause)),),
            github,
        ),
        call_ensures(
            Fault::message,
            (&Fault::Retryable(RetryableServiceError::Store(cause)),),
            store,
        ),
        call_ensures(
            Fault::message,
            (&Fault::Retryable(RetryableServiceError::StoreRefusedRecord(cause)),),
            record,
        ),
    ensures
        terminal@ == cause@,
        github@ == "transient GitHub failure: "@ + cause@,
        store@ == "transient projection-store failure: "@ + cause@,
        record@ == "batch record met a terminal-class store error; retrying regardless: "@ + cause@,
{
}

} // verus!
