//! Model of the substrate's on-disk entities: specs, cards, memories,
//! choices, task and note events, sessions, skill invocations, topology
//! entries and the project config. The files themselves are read and
//! written by the surrounding program; the logic of the library works on
//! these values.

use vstd::prelude::*;
use crate::text::{cat, owned, u64_to_decimal, decimal};

verus! {

/// Lifecycle status of a spec.
#[derive(Debug, Clone, Copy, PartialEq, Eq, Structural)]
pub enum SpecStatus {
    Open,
    Closed,
}

impl SpecStatus {
    /// Wire spelling: `open` / `closed`.
    pub open spec fn spec_name(self) -> Seq<char> {
        match self {
            SpecStatus::Open => "open"@,
            SpecStatus::Closed => "closed"@,
        }
    }

    /// Wire spelling: `open` / `closed`.
    pub fn as_str(&self) -> (s: &'static str)
        ensures
            s@ == self.spec_name(),
    {
        match self {
            SpecStatus::Open => "open",
            SpecStatus::Closed => "closed",
        }
    }
}

/// Kind of an acceptance criterion. `Code`, `Config` and `Doc` block a
/// spec from closing while unchecked; `Ops` and `Observation` are
/// deferrable.
#[derive(Debug, Clone, Copy, PartialEq, Eq, Structural)]
pub enum AcType {
    Code,
    Doc,
    Config,
    Ops,
    Observation,
}

impl AcType {
    /// Whether an unchecked criterion of this kind blocks `spec.close`.
    pub open spec fn spec_blocks_close(self) -> bool {
        match self {
            AcType::Code | AcType::Config | AcType::Doc => true,
            AcType::Ops | AcType::Observation => false,
        }
    }

    /// Whether an unchecked criterion of this kind blocks `spec.close`.
    pub fn blocks_close(&self) -> (r: bool)
        ensures
            r == self.spec_blocks_close(),
    {
        match self {
            AcType::Code | AcType::Config | AcType::Doc => true,
            AcType::Ops | AcType::Observation => false,
        }
    }

    /// The default kind of a criterion: `Code`.
    pub fn default_kind() -> (t: AcType)
        ensures
            t == AcType::Code,
    {
        AcType::Code
    }
}

/// One acceptance criterion of a spec.
#[derive(Debug, Clone, PartialEq, Eq)]
pub struct AcceptanceCriterion {
    /// `ac-NN`.
    pub id: String,
    pub description: String,
    /// A gate blocks every later criterion until it is checked.
    pub gate: bool,
    pub checked: bool,
    pub verification: Option<String>,
    pub ac_type: AcType,
}

/// A memory the spec's author reconciled before closing.
#[derive(Debug, Clone, PartialEq, Eq)]
pub struct MemoryConsidered {
    pub key: String,
}

/// A spec: the unit of planned work.
#[derive(Debug, Clone, PartialEq, Eq)]
pub struct Spec {
    pub id: String,
    pub goal: String,
    /// Slugs of the cards this spec advances.
    pub cards: Vec<String>,
    pub status: SpecStatus,
    pub labels: Vec<String>,
    pub acceptance_criteria: Vec<AcceptanceCriterion>,
    pub memories_considered: Vec<MemoryConsidered>,
}

/// Maturity of a card's capability.
#[derive(Debug, Clone, Copy, PartialEq, Eq, Structural)]
pub enum CardMaturity {
    Planned,
    Emerging,
    Established,
}

impl CardMaturity {
    /// Wire spelling: `planned` / `emerging` / `established`.
    pub open spec fn spec_name(self) -> Seq<char> {
        match self {
            CardMaturity::Planned => "planned"@,
            CardMaturity::Emerging => "emerging"@,
            CardMaturity::Established => "established"@,
        }
    }

    /// Wire spelling: `planned` / `emerging` / `established`.
    pub fn as_str(&self) -> (s: &'static str)
        ensures
            s@ == self.spec_name(),
    {
        match self {
            CardMaturity::Planned => "planned",
            CardMaturity::Emerging => "emerging",
            CardMaturity::Established => "established",
        }
    }
}

/// Kind of a card-to-card relation.
#[derive(Debug, Clone, Copy, PartialEq, Eq, Structural)]
pub enum RelationKind {
    DependsOn,
    Feeds,
    Supersedes,
    SupersededBy,
}

/// A directed relation from one card to another.
#[derive(Debug, Clone, PartialEq, Eq)]
pub struct Relation {
    /// Slug of the target card.
    pub card: String,
    pub kind: RelationKind,
    pub reason: String,
}

/// A user-language scenario on a card.
#[derive(Debug, Clone, PartialEq, Eq)]
pub struct Scenario {
    pub name: String,
    pub given: String,
    pub when: String,
    /// The expected outcome (the scenario's `then` clause).
    pub outcome: String,
    /// Promotes to a gate acceptance criterion.
    pub gate: bool,
}

/// A deliberate hold on a card.
#[derive(Debug, Clone, PartialEq, Eq)]
pub struct Park {
    pub reason: String,
    pub until: Option<String>,
}

/// A feature card.
#[derive(Debug, Clone, PartialEq, Eq)]
pub struct Card {
    pub id: Option<String>,
    pub feature: String,
    pub as_a: Option<String>,
    pub i_want: Option<String>,
    pub so_that: Option<String>,
    pub goal: String,
    pub scenarios: Vec<Scenario>,
    pub maturity: CardMaturity,
    /// Paths of the specs that addressed this card.
    pub specs: Vec<String>,
    pub relations: Vec<Relation>,
    pub references: Vec<String>,
    pub notes: Vec<String>,
    pub park: Option<Park>,
}

/// A remembered fact, keyed by `key`.
#[derive(Debug, Clone, PartialEq, Eq)]
pub struct Memory {
    pub key: String,
    pub body: String,
    pub timestamp: String,
    pub labels: Vec<String>,
}

/// A note appended to a spec's note stream.
#[derive(Debug, Clone, PartialEq, Eq)]
pub struct NoteEvent {
    pub spec_id: String,
    pub body: String,
    pub labels: Vec<String>,
    pub timestamp: String,
}

/// Kind of a task lifecycle event.
#[derive(Debug, Clone, Copy, PartialEq, Eq, Structural)]
pub enum TaskEventKind {
    Open,
    Claim,
    Update,
    Done,
}

/// One event of a task's append-only history.
#[derive(Debug, Clone, PartialEq, Eq)]
pub struct TaskEvent {
    pub task_id: String,
    pub spec_id: String,
    pub event: TaskEventKind,
    pub body: Option<String>,
    pub labels: Vec<String>,
    pub timestamp: String,
}

/// Status of a recorded choice (decision).
#[derive(Debug, Clone, Copy, PartialEq, Eq, Structural)]
pub enum ChoiceStatus {
    Proposed,
    Accepted,
    Rejected,
    Deprecated,
    Superseded,
}

/// A recorded choice (decision record).
#[derive(Debug, Clone, PartialEq, Eq)]
pub struct Choice {
    pub id: String,
    pub title: String,
    pub status: ChoiceStatus,
    pub date_created: String,
    pub date_modified: Option<String>,
    pub body: String,
    pub references: Vec<String>,
}

/// A distilled agent session.
#[derive(Debug, Clone, PartialEq, Eq)]
pub struct Session {
    pub id: String,
    pub started_at: String,
    pub ended_at: Option<String>,
    pub distillate: String,
    pub card_id: Option<String>,
    pub labels: Vec<String>,
}

/// How a skill invocation went.
#[derive(Debug, Clone, Copy, PartialEq, Eq, Structural)]
pub enum InvocationOutcome {
    Worked,
    Partial,
    DidntApply,
    Incorrect,
}

/// One row of a skill's invocation stream.
#[derive(Debug, Clone, PartialEq, Eq)]
pub struct SkillInvocation {
    pub skill_id: String,
    pub session_id: String,
    pub outcome: InvocationOutcome,
    pub correction: Option<String>,
    pub timestamp: String,
}

/// The `docs` block of the project config.
#[derive(Debug, Clone, PartialEq, Eq)]
pub struct DocsConfig {
    pub topology: Option<String>,
}

/// The opt-in project config (`.orbit/config.yaml`).
#[derive(Debug, Clone, PartialEq, Eq)]
pub struct Config {
    pub docs: Option<DocsConfig>,
    pub plugin_version: Option<String>,
    pub plugin_repo: Option<bool>,
}

/// Shortest subsystem slug a topology entry accepts.
pub const MIN_SUBSYSTEM_LEN: usize = 5;

/// A per-subsystem topology entry: pointers to the subsystem's code,
/// decision records, operational docs and tests.
#[derive(Debug, Clone, PartialEq, Eq)]
pub struct TopologyEntry {
    pub subsystem: String,
    pub canonical_code: Vec<String>,
    pub decision_record: Vec<String>,
    pub operational_doc: Vec<String>,
    pub test_surface: Vec<String>,
}

/// A character a subsystem slug may hold: lowercase ASCII letter, ASCII
/// digit or `-`.
pub open spec fn slug_char(c: char) -> bool {
    ('a' <= c && c <= 'z') || ('0' <= c && c <= '9') || c == '-'
}

/// Every character of `s` is a slug character.
pub open spec fn slug_shaped(s: Seq<char>) -> bool {
    forall|i: int| 0 <= i < s.len() ==> slug_char(#[trigger] s[i])
}

fn is_slug_char(c: char) -> (r: bool)
    ensures
        r == slug_char(c),
{
    ('a' <= c && c <= 'z') || ('0' <= c && c <= '9') || c == '-'
}

impl TopologyEntry {
    /// The entry passes the checks serde cannot express.
    pub open spec fn spec_valid(self) -> bool {
        &&& self.subsystem@.len() >= MIN_SUBSYSTEM_LEN
        &&& slug_shaped(self.subsystem@)
        &&& self.canonical_code.len() > 0
    }

    /// The message `validate` refuses an invalid entry with: the first
    /// check that failed.
    pub open spec fn validate_message(self) -> Seq<char> {
        if self.subsystem@.len() < MIN_SUBSYSTEM_LEN {
            "subsystem '"@ + self.subsystem@ + "' is shorter than "@
                + decimal(MIN_SUBSYSTEM_LEN as nat) + " characters"@
        } else if !slug_shaped(self.subsystem@) {
            "subsystem '"@ + self.subsystem@ + "' must hold only lowercase letters, digits and '-'"@
        } else {
            "canonical_code must name at least one path"@
        }
    }

    /// Checks what serde cannot: the subsystem is a slug (lowercase ASCII
    /// letters, digits, `-`) of at least `MIN_SUBSYSTEM_LEN` characters, and
    /// `canonical_code` names at least one path. The error names the first
    /// check that failed.
    pub fn validate(&self) -> (r: std::result::Result<(), String>)
        ensures
            r is Ok <==> self.spec_valid(),
            r matches Err(m) ==> m@ == self.validate_message(),
    {
        let chars = crate::text::chars_of(self.subsystem.as_str());
        if chars.len() < MIN_SUBSYSTEM_LEN {
            let m = cat(owned("subsystem '"), self.subsystem.as_str());
            let m = cat(m, "' is shorter than ");
            let n = u64_to_decimal(MIN_SUBSYSTEM_LEN as u64);
            let m = cat(m, n.as_str());
            return Err(cat(m, " characters"));
        }
        let mut i: usize = 0;
        while i < chars.len()
            invariant
                chars@ == self.subsystem@,
                chars.len() >= MIN_SUBSYSTEM_LEN,
                i <= chars.len(),
                forall|j: int| 0 <= j < i ==> slug_char(#[trigger] chars@[j]),
            decreases chars.len() - i,
        {
            if !is_slug_char(chars[i]) {
                assert(!slug_char(self.subsystem@[i as int]));
                let m = cat(owned("subsystem '"), self.subsystem.as_str());
                return Err(cat(m, "' must hold only lowercase letters, digits and '-'"));
            }
            i = i + 1;
        }
        if self.canonical_code.len() == 0 {
            return Err(owned("canonical_code must name at least one path"));
        }
        Ok(())
    }
}

} // verus!
