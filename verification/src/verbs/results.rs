//! The typed results of every verb.

use vstd::prelude::*;
use crate::schema::{AcceptanceCriterion, Card, Choice, Memory, NoteEvent, Session, SkillInvocation, Spec, TaskEvent};
use crate::routine::{RecurringChain, SessionChain};
use crate::verbs::audit::SubstrateLayoutState;

verus! {

/// A value carried as structured evidence on a finding.
#[derive(Debug, Clone, PartialEq, Eq)]
pub enum EvidenceValue {
    Text(String),
    Number(i64),
    List(Vec<String>),
}

/// One named piece of evidence on a finding.
#[derive(Debug, Clone, PartialEq, Eq)]
pub struct EvidenceEntry {
    pub key: String,
    pub value: EvidenceValue,
}

/// Serialisation predicate for `CardTreeNode::truncated`: the flag is
/// omitted when false.
pub fn is_false(b: &bool) -> (r: bool)
    ensures
        r == !*b,
{
    !*b
}

/// Result of the `spec.list` verb.
#[derive(Debug, Clone, PartialEq, Eq)]
pub struct SpecListResult {
    pub specs: Vec<SpecSummary>,
}

/// Result of the `spec.show` verb.
#[derive(Debug, Clone, PartialEq, Eq)]
pub struct SpecShowResult {
    pub spec: Spec,
}

/// Result of the `spec.resolve` verb.
#[derive(Debug, Clone, PartialEq, Eq)]
pub enum SpecResolveResult {
    Resolved {
        id: String,
        source: String,
    },
    Prompt {
        candidates: Vec<SpecResolveCandidate>,
        source: String,
    },
}

/// One open spec offered when the resolver must ask: its id and the first line of its goal.
#[derive(Debug, Clone, PartialEq, Eq)]
pub struct SpecResolveCandidate {
    pub id: String,
    pub goal_first_line: String,
}

/// Result of the `spec.note` verb.
#[derive(Debug, Clone, PartialEq, Eq)]
pub struct SpecNoteResult {
    pub note: NoteEvent,
}

/// Result of the `spec.create` verb.
#[derive(Debug, Clone, PartialEq, Eq)]
pub struct SpecCreateResult {
    pub spec: Spec,
}

/// Result of the `spec.update` verb.
#[derive(Debug, Clone, PartialEq, Eq)]
pub struct SpecUpdateResult {
    pub spec: Spec,
}

/// Result of the `spec.close` verb.
#[derive(Debug, Clone, PartialEq, Eq)]
pub struct SpecCloseResult {
    pub spec: Spec,
    pub cards_updated: Vec<String>,
    pub forced_unchecked: Vec<String>,
    pub deferrable_open: Vec<String>,
    pub forced_unreconciled: Vec<String>,
    pub topology_warnings: Vec<TopologyDriftEntry>,
}

/// Result of the `spec.acs` verb.
#[derive(Debug, Clone, PartialEq, Eq)]
pub struct SpecAcsResult {
    pub acs: Vec<AcceptanceCriterion>,
}

/// The next criterion to work on.
#[derive(Debug, Clone, PartialEq, Eq)]
pub struct NextAc {
    pub id: String,
    pub gate: bool,
}

/// Result of the `spec.next-ac` verb.
#[derive(Debug, Clone, PartialEq, Eq)]
pub struct SpecNextAcResult {
    pub next: Option<NextAc>,
}

/// The first unchecked gate criterion.
#[derive(Debug, Clone, PartialEq, Eq)]
pub struct BlockingGate {
    pub id: String,
    pub description: String,
}

/// Result of the `spec.blocking-gate` verb.
#[derive(Debug, Clone, PartialEq, Eq)]
pub struct SpecBlockingGateResult {
    pub blocking: Option<BlockingGate>,
}

/// Result of the `spec.has-unchecked` verb.
#[derive(Debug, Clone, PartialEq, Eq)]
pub struct SpecHasUncheckedResult {
    pub has_unchecked: bool,
}

/// Result of the `spec.check` verb.
#[derive(Debug, Clone, PartialEq, Eq)]
pub struct SpecCheckResult {
    pub spec: Spec,
}

/// Result of the `spec.uncheck` verb.
#[derive(Debug, Clone, PartialEq, Eq)]
pub struct SpecUncheckResult {
    pub spec: Spec,
}

/// Result of the `spec.promote` verb.
#[derive(Debug, Clone, PartialEq, Eq)]
pub struct SpecPromoteResult {
    pub spec: Spec,
    pub dry_run: bool,
}

/// Result of the `memory.remember` verb.
#[derive(Debug, Clone, PartialEq, Eq)]
pub struct MemoryRememberResult {
    pub memory: Memory,
    pub nudge: Option<String>,
    pub shape_warning: Option<String>,
}

/// Result of the `memory.list`, `memory.search` verbs.
#[derive(Debug, Clone, PartialEq, Eq)]
pub struct MemoryListResult {
    pub memories: Vec<Memory>,
}

/// Result of the `card.show` verb.
#[derive(Debug, Clone, PartialEq, Eq)]
pub struct CardShowResult {
    pub slug: String,
    pub card: Card,
}

/// Result of the `card.list`, `card.search` verbs.
#[derive(Debug, Clone, PartialEq, Eq)]
pub struct CardListResult {
    pub cards: Vec<CardSummary>,
}

/// List view of a card.
#[derive(Debug, Clone, PartialEq, Eq)]
pub struct CardSummary {
    pub slug: String,
    pub feature: String,
    pub goal: String,
    pub maturity: String,
}

/// Result of the `card.tree` verb.
#[derive(Debug, PartialEq, Eq)]
pub struct CardTreeResult {
    pub root: String,
    pub depth: u32,
    pub tree: CardTreeNode,
}

/// A node of a card subgraph. A truncated node has no edges expanded.
#[derive(Debug, PartialEq, Eq)]
pub struct CardTreeNode {
    pub slug: String,
    pub feature: String,
    pub outgoing: Vec<CardTreeEdge>,
    pub incoming: Vec<CardTreeEdge>,
    pub truncated: bool,
}

/// A relation edge to a neighbouring card node.
#[derive(Debug, PartialEq, Eq)]
pub struct CardTreeEdge {
    pub kind: String,
    pub reason: String,
    pub target: CardTreeNode,
}

/// Result of the `card.specs` verb.
#[derive(Debug, Clone, PartialEq, Eq)]
pub struct CardSpecsResult {
    pub root: String,
    pub specs: Vec<CardSpecsEntry>,
}

/// One spec linked to a card in either direction, with the health of the link.
#[derive(Debug, Clone, PartialEq, Eq)]
pub struct CardSpecsEntry {
    pub spec_id: String,
    pub spec_path: String,
    pub listed_on_card: bool,
    pub back_referenced_by_spec: bool,
    pub status: String,
}

/// Result of the `overview` verb.
#[derive(Debug, Clone, PartialEq, Eq)]
pub struct OverviewResult {
    pub open_spec_count: usize,
    pub recent_open_spec_ids: Vec<String>,
    pub spec_overflow: usize,
    pub cards_by_maturity: CardMaturityCounts,
    pub memories: Vec<Memory>,
    pub most_connected_card: Option<MostConnectedCard>,
    pub orphans: Vec<String>,
    pub orphan_overflow: usize,
}

/// Number of cards at each maturity.
#[derive(Debug, Clone, PartialEq, Eq)]
pub struct CardMaturityCounts {
    pub planned: usize,
    pub emerging: usize,
    pub established: usize,
}

/// The card with the most relations (outgoing plus incoming).
#[derive(Debug, Clone, PartialEq, Eq)]
pub struct MostConnectedCard {
    pub slug: String,
    pub feature: String,
    pub degree: usize,
}

/// Result of the `graph` verb.
#[derive(Debug, Clone, PartialEq, Eq)]
pub struct GraphResult {
    pub format: String,
    pub text: String,
}

/// Result of the `audit.drift` verb.
#[derive(Debug, Clone, PartialEq, Eq)]
pub struct AuditDriftResult {
    pub drift: Vec<DriftEntry>,
}

/// A top-level field of a substrate file that the schema does not know.
#[derive(Debug, Clone, PartialEq, Eq)]
pub struct DriftEntry {
    pub path: String,
    pub kind: String,
    pub field: String,
    pub disposition: String,
}

/// Result of the `audit.topology` verb.
#[derive(Debug, Clone, PartialEq, Eq)]
pub struct AuditTopologyResult {
    pub configured: bool,
    pub topology_drift: Vec<TopologyDriftEntry>,
}

/// Result of the `audit.conformance` verb.
#[derive(Debug, Clone, PartialEq, Eq)]
pub struct AuditConformanceResult {
    pub findings: Vec<ConformanceFinding>,
    pub aggregated: AggregatedAudits,
    pub pin: PinState,
}

/// The drift and topology audits carried inside the conformance audit.
#[derive(Debug, Clone, PartialEq, Eq)]
pub struct AggregatedAudits {
    pub drift: AuditDriftResult,
    pub topology: AuditTopologyResult,
}

/// One workflow-conformance finding with the verb that remedies it.
#[derive(Debug, Clone, PartialEq, Eq)]
pub struct ConformanceFinding {
    pub severity: String,
    pub subsystem: String,
    pub subject: String,
    pub state: String,
    pub evidence: Option<Vec<EvidenceEntry>>,
    pub remediation: Remediation,
}

/// The verb that remedies a finding, with its rationale.
#[derive(Debug, Clone, PartialEq, Eq)]
pub struct Remediation {
    pub verb: String,
    pub rationale: Option<String>,
}

/// Pinned plugin version against the installed one.
#[derive(Debug, Clone, PartialEq, Eq)]
pub struct PinState {
    pub pinned: Option<String>,
    pub current: String,
    pub status: String,
}

/// Result of the `topology.setup` verb.
#[derive(Debug, Clone, PartialEq, Eq)]
pub struct TopologySetupResult {
    pub config_cleaned: bool,
    pub dir_created: bool,
    pub seeds_created: Vec<String>,
    pub seeds_skipped: Vec<String>,
    pub declined: bool,
    pub readme_created: bool,
}

/// Result of the `substrate.classify` verb.
#[derive(Debug, Clone, PartialEq, Eq)]
pub struct SubstrateClassifyResult {
    pub state: SubstrateLayoutState,
}

/// One topology drift observation.
#[derive(Debug, Clone, PartialEq, Eq)]
pub struct TopologyDriftEntry {
    pub subsystem: String,
    pub drift_kind: String,
    pub detail: String,
}

/// Result of the `choice.show` verb.
#[derive(Debug, Clone, PartialEq, Eq)]
pub struct ChoiceShowResult {
    pub choice: Choice,
}

/// Result of the `choice.list`, `choice.search` verbs.
#[derive(Debug, Clone, PartialEq, Eq)]
pub struct ChoiceListResult {
    pub choices: Vec<ChoiceSummary>,
}

/// List view of a choice.
#[derive(Debug, Clone, PartialEq, Eq)]
pub struct ChoiceSummary {
    pub id: String,
    pub title: String,
    pub status: String,
    pub date_created: String,
}

/// Result of the `session.prime` verb.
#[derive(Debug, Clone, PartialEq, Eq)]
pub struct SessionPrimeResult {
    pub open_specs: Vec<SpecSummary>,
    pub memories: Vec<Memory>,
    pub handover: Option<HandoverSummary>,
    pub item_bound: usize,
    pub next_step: String,
    pub topology_drift: Option<Vec<TopologyDriftEntry>>,
}

/// Result of the `session.start` verb.
#[derive(Debug, Clone, PartialEq, Eq)]
pub struct SessionStartResult {
    pub session_id: String,
    pub path: String,
}

/// Result of the `session.distill` verb.
#[derive(Debug, Clone, PartialEq, Eq)]
pub struct SessionDistillResult {
    pub session: Session,
}

/// Result of the `session.set-card` verb.
#[derive(Debug, Clone, PartialEq, Eq)]
pub struct SessionSetCardResult {
    pub card_id: String,
    pub path: String,
}

/// The orientation fields of a distilled session.
#[derive(Debug, Clone, PartialEq, Eq)]
pub struct HandoverSummary {
    pub session_id: String,
    pub card_id: Option<String>,
    pub started_at: String,
    pub ended_at: Option<String>,
    pub distillate: String,
}

/// Result of the `session.handover` verb.
#[derive(Debug, Clone, PartialEq, Eq)]
pub struct SessionHandoverResult {
    pub handover: Option<HandoverSummary>,
}

/// Result of the `skill.record-invocation` verb.
#[derive(Debug, Clone, PartialEq, Eq)]
pub struct SkillRecordInvocationResult {
    pub invocation: SkillInvocation,
}

/// One invocation counted by `skill.recurrence`.
#[derive(Debug, Clone, PartialEq, Eq)]
pub struct RecurrenceInvocation {
    pub timestamp: String,
    pub correction: Option<String>,
}

/// The invocations of one outcome.
#[derive(Debug, Clone, Default, PartialEq, Eq)]
pub struct RecurrenceBucket {
    pub count: usize,
    pub invocations: Vec<RecurrenceInvocation>,
}

/// Invocation buckets, one per outcome.
#[derive(Debug, Clone, Default, PartialEq, Eq)]
pub struct RecurrenceByOutcome {
    pub worked: RecurrenceBucket,
    pub partial: RecurrenceBucket,
    pub didnt_apply: RecurrenceBucket,
    pub incorrect: RecurrenceBucket,
}

/// Result of the `skill.recurrence` verb.
#[derive(Debug, Clone, PartialEq, Eq)]
pub struct SkillRecurrenceResult {
    pub skill_id: String,
    pub by_outcome: RecurrenceByOutcome,
    pub total: usize,
}

/// Result of the `routine.chains` verb.
#[derive(Debug, Clone, PartialEq, Eq)]
pub struct RoutineChainsResult {
    pub chains: Vec<SessionChain>,
}

/// Result of the `routine.detect` verb.
#[derive(Debug, Clone, PartialEq, Eq)]
pub struct RoutineDetectResult {
    pub recurring: Vec<RecurringChain>,
}

/// Result of the `routine.author` verb.
#[derive(Debug, Clone, PartialEq, Eq)]
pub struct RoutineAuthorResult {
    pub written: bool,
    pub path: String,
    pub chain_id: String,
    pub name: String,
}

/// Result of the `routine.verify` verb.
#[derive(Debug, Clone, PartialEq, Eq)]
pub struct RoutineVerifyResult {
    pub path: String,
    pub resolved: Vec<String>,
    pub broken_refs: Vec<String>,
    pub last_verified: Option<String>,
}

/// A task's current state: its last event, with the number of events it has.
#[derive(Debug, Clone, PartialEq, Eq)]
pub struct TaskState {
    pub task_id: String,
    pub spec_id: String,
    pub state: String,
    pub body: Option<String>,
    pub labels: Vec<String>,
    pub timestamp: String,
    pub event_count: usize,
}

/// Result of the `task.open` verb.
#[derive(Debug, Clone, PartialEq, Eq)]
pub struct TaskOpenResult {
    pub event: TaskEvent,
    pub task_id: String,
}

/// Result of the `task.list`, `task.ready` verbs.
#[derive(Debug, Clone, PartialEq, Eq)]
pub struct TaskListResult {
    pub tasks: Vec<TaskState>,
}

/// Result of the `task.show` verb.
#[derive(Debug, Clone, PartialEq, Eq)]
pub struct TaskShowResult {
    pub state: TaskState,
    pub events: Vec<TaskEvent>,
}

/// Result of the `task.claim`, `task.update`, `task.done` verbs.
#[derive(Debug, Clone, PartialEq, Eq)]
pub struct TaskEventResult {
    pub event: TaskEvent,
}

/// List view of a spec.
#[derive(Debug, Clone, PartialEq, Eq)]
pub struct SpecSummary {
    pub id: String,
    pub goal: String,
    pub status: String,
    pub cards: Vec<String>,
    pub labels: Vec<String>,
}

} // verus!
