//! The typed arguments of every verb. Each request names one verb and
//! carries that verb's arguments.

use vstd::prelude::*;
use crate::schema::AcceptanceCriterion;

verus! {

/// A verb request: one variant per verb.
#[derive(Debug, Clone)]
pub enum VerbRequest {
    SpecList(SpecListArgs),
    SpecShow(SpecShowArgs),
    SpecResolve(SpecResolveArgs),
    SpecNote(SpecNoteArgs),
    SpecCreate(SpecCreateArgs),
    SpecUpdate(SpecUpdateArgs),
    SpecClose(SpecCloseArgs),
    SpecAcs(SpecAcsArgs),
    SpecNextAc(SpecNextAcArgs),
    SpecBlockingGate(SpecBlockingGateArgs),
    SpecHasUnchecked(SpecHasUncheckedArgs),
    SpecCheck(SpecCheckArgs),
    SpecUncheck(SpecUncheckArgs),
    SpecPromote(SpecPromoteArgs),
    TaskOpen(TaskOpenArgs),
    TaskList(TaskListArgs),
    TaskShow(TaskShowArgs),
    TaskReady(TaskReadyArgs),
    TaskClaim(TaskClaimArgs),
    TaskUpdate(TaskUpdateArgs),
    TaskDone(TaskDoneArgs),
    MemoryRemember(MemoryRememberArgs),
    MemoryList(MemoryListArgs),
    MemorySearch(MemorySearchArgs),
    MemoryMatch(MemoryMatchArgs),
    CardShow(CardShowArgs),
    CardList(CardListArgs),
    CardSearch(CardSearchArgs),
    CardTree(CardTreeArgs),
    CardSpecs(CardSpecsArgs),
    Overview(OverviewArgs),
    Graph(GraphArgs),
    AuditDrift(AuditDriftArgs),
    AuditTopology(AuditTopologyArgs),
    AuditConformance(AuditConformanceArgs),
    TopologySetup(TopologySetupArgs),
    SubstrateClassify(SubstrateClassifyArgs),
    ChoiceShow(ChoiceShowArgs),
    ChoiceList(ChoiceListArgs),
    ChoiceSearch(ChoiceSearchArgs),
    SessionPrime(SessionPrimeArgs),
    SessionStart(SessionStartArgs),
    SessionDistill(SessionDistillArgs),
    SessionSetCard(SessionSetCardArgs),
    SessionHandover(SessionHandoverArgs),
    SkillRecordInvocation(SkillRecordInvocationArgs),
    SkillRecurrence(SkillRecurrenceArgs),
    RoutineChains(RoutineChainsArgs),
    RoutineDetect(RoutineDetectArgs),
    RoutineAuthor(RoutineAuthorArgs),
    RoutineVerify(RoutineVerifyArgs),
}

/// Arguments of the `spec.list` verb.
#[derive(Debug, Clone, Default, PartialEq, Eq)]
pub struct SpecListArgs {
    pub status: Option<String>,
}

/// Arguments of the `spec.show` verb.
#[derive(Debug, Clone, PartialEq, Eq)]
pub struct SpecShowArgs {
    pub id: String,
}

/// Arguments of the `spec.resolve` verb.
#[derive(Debug, Clone, Default, PartialEq, Eq)]
pub struct SpecResolveArgs {
    pub skill: Option<String>,
    pub card: Option<String>,
}

/// Arguments of the `spec.create` verb.
#[derive(Debug, Clone, PartialEq, Eq)]
pub struct SpecCreateArgs {
    pub id: String,
    pub goal: String,
    pub cards: Vec<String>,
    pub labels: Vec<String>,
    pub acceptance_criteria: Vec<AcceptanceCriterion>,
}

/// Arguments of the `spec.update` verb.
#[derive(Debug, Clone, Default, PartialEq, Eq)]
pub struct SpecUpdateArgs {
    pub id: String,
    pub goal: Option<String>,
    pub cards: Option<Vec<String>>,
    pub labels: Option<Vec<String>>,
    pub acceptance_criteria: Option<Vec<AcceptanceCriterion>>,
}

/// Arguments of the `spec.close` verb.
#[derive(Debug, Clone, Default, PartialEq, Eq)]
pub struct SpecCloseArgs {
    pub id: String,
    pub force: bool,
}

/// Arguments of the `spec.acs` verb.
#[derive(Debug, Clone, PartialEq, Eq)]
pub struct SpecAcsArgs {
    pub id: String,
}

/// Arguments of the `spec.next-ac` verb.
#[derive(Debug, Clone, PartialEq, Eq)]
pub struct SpecNextAcArgs {
    pub id: String,
}

/// Arguments of the `spec.blocking-gate` verb.
#[derive(Debug, Clone, PartialEq, Eq)]
pub struct SpecBlockingGateArgs {
    pub id: String,
}

/// Arguments of the `spec.has-unchecked` verb.
#[derive(Debug, Clone, PartialEq, Eq)]
pub struct SpecHasUncheckedArgs {
    pub id: String,
}

/// Arguments of the `spec.check` verb.
#[derive(Debug, Clone, PartialEq, Eq)]
pub struct SpecCheckArgs {
    pub id: String,
    pub ac_id: String,
}

/// Arguments of the `spec.uncheck` verb.
#[derive(Debug, Clone, PartialEq, Eq)]
pub struct SpecUncheckArgs {
    pub id: String,
    pub ac_id: String,
}

/// Arguments of the `spec.promote` verb.
#[derive(Debug, Clone, PartialEq, Eq)]
pub struct SpecPromoteArgs {
    pub card_path: String,
    pub dry_run: bool,
    pub today: Option<String>,
}

/// Arguments of the `task.open` verb.
#[derive(Debug, Clone, PartialEq, Eq)]
pub struct TaskOpenArgs {
    pub spec_id: String,
    pub body: String,
    pub labels: Vec<String>,
    pub task_id: Option<String>,
    pub timestamp: Option<String>,
}

/// Arguments of the `task.list` verb.
#[derive(Debug, Clone, Default, PartialEq, Eq)]
pub struct TaskListArgs {
    pub spec_id: Option<String>,
    pub state: Option<String>,
}

/// Arguments of the `task.show` verb.
#[derive(Debug, Clone, PartialEq, Eq)]
pub struct TaskShowArgs {
    pub spec_id: String,
    pub task_id: String,
}

/// Arguments of the `task.ready` verb.
#[derive(Debug, Clone, Default, PartialEq, Eq)]
pub struct TaskReadyArgs {
    pub spec_id: Option<String>,
}

/// Arguments of the `task.claim` verb.
#[derive(Debug, Clone, PartialEq, Eq)]
pub struct TaskClaimArgs {
    pub spec_id: String,
    pub task_id: String,
    pub body: Option<String>,
    pub labels: Vec<String>,
    pub timestamp: Option<String>,
}

/// Arguments of the `task.update` verb.
#[derive(Debug, Clone, PartialEq, Eq)]
pub struct TaskUpdateArgs {
    pub spec_id: String,
    pub task_id: String,
    pub body: String,
    pub labels: Vec<String>,
    pub timestamp: Option<String>,
}

/// Arguments of the `task.done` verb.
#[derive(Debug, Clone, PartialEq, Eq)]
pub struct TaskDoneArgs {
    pub spec_id: String,
    pub task_id: String,
    pub body: Option<String>,
    pub labels: Vec<String>,
    pub timestamp: Option<String>,
}

/// Arguments of the `memory.remember` verb.
#[derive(Debug, Clone, PartialEq, Eq)]
pub struct MemoryRememberArgs {
    pub key: String,
    pub body: String,
    pub labels: Vec<String>,
    pub timestamp: Option<String>,
    pub no_nudge: bool,
    pub no_warn: bool,
}

/// Arguments of the `memory.list` verb.
#[derive(Debug, Clone, Default, PartialEq, Eq)]
pub struct MemoryListArgs {}

/// Arguments of the `memory.search` verb.
#[derive(Debug, Clone, PartialEq, Eq)]
pub struct MemorySearchArgs {
    pub query: String,
}

/// Arguments of the `memory.match` verb.
#[derive(Debug, Clone, PartialEq, Eq)]
pub struct MemoryMatchArgs {
    pub topic: String,
    pub labels: Vec<String>,
    pub limit: usize,
}

/// Arguments of the `card.show` verb.
#[derive(Debug, Clone, PartialEq, Eq)]
pub struct CardShowArgs {
    pub slug: String,
}

/// Arguments of the `card.list` verb.
#[derive(Debug, Clone, Default, PartialEq, Eq)]
pub struct CardListArgs {
    pub maturity: Option<String>,
}

/// Arguments of the `card.search` verb.
#[derive(Debug, Clone, PartialEq, Eq)]
pub struct CardSearchArgs {
    pub query: String,
}

/// Arguments of the `card.tree` verb.
#[derive(Debug, Clone, PartialEq, Eq)]
pub struct CardTreeArgs {
    pub slug: String,
    pub depth: u32,
}

/// Arguments of the `card.specs` verb.
#[derive(Debug, Clone, PartialEq, Eq)]
pub struct CardSpecsArgs {
    pub slug: String,
}

/// Arguments of the `overview` verb.
#[derive(Debug, Clone, Default, PartialEq, Eq)]
pub struct OverviewArgs {
    pub memory_cap: Option<usize>,
}

/// Arguments of the `graph` verb.
#[derive(Debug, Clone, Default, PartialEq, Eq)]
pub struct GraphArgs {
    pub card: Option<String>,
    pub depth: u32,
    pub format: GraphFormat,
}

/// Output format of the `graph` verb.
#[derive(Debug, Clone, Copy, Default, PartialEq, Eq, Structural)]
pub enum GraphFormat {
    #[default]
    Mermaid,
    Graphviz,
}

/// Arguments of the `audit.drift` verb.
#[derive(Debug, Clone, Default, PartialEq, Eq)]
pub struct AuditDriftArgs {}

/// Arguments of the `audit.topology` verb.
#[derive(Debug, Clone, Default, PartialEq, Eq)]
pub struct AuditTopologyArgs {}

/// Arguments of the `audit.conformance` verb.
#[derive(Debug, Clone, Default, PartialEq, Eq)]
pub struct AuditConformanceArgs {}

/// Arguments of the `topology.setup` verb.
#[derive(Debug, Clone, Default, PartialEq, Eq)]
pub struct TopologySetupArgs {
    pub answer_wire: Option<String>,
}

/// Arguments of the `substrate.classify` verb.
#[derive(Debug, Clone, Default, PartialEq, Eq)]
pub struct SubstrateClassifyArgs {}

/// Arguments of the `choice.show` verb.
#[derive(Debug, Clone, PartialEq, Eq)]
pub struct ChoiceShowArgs {
    pub id: String,
}

/// Arguments of the `choice.list` verb.
#[derive(Debug, Clone, Default, PartialEq, Eq)]
pub struct ChoiceListArgs {
    pub status: Option<String>,
}

/// Arguments of the `choice.search` verb.
#[derive(Debug, Clone, PartialEq, Eq)]
pub struct ChoiceSearchArgs {
    pub query: String,
}

/// Arguments of the `session.prime` verb.
#[derive(Debug, Clone, Default, PartialEq, Eq)]
pub struct SessionPrimeArgs {
    pub memory_cap: Option<usize>,
}

/// Arguments of the `session.start` verb.
#[derive(Debug, Clone, Default, PartialEq, Eq)]
pub struct SessionStartArgs {
    pub id: Option<String>,
}

/// Arguments of the `session.distill` verb.
#[derive(Debug, Clone, PartialEq, Eq)]
pub struct SessionDistillArgs {
    pub session_id: Option<String>,
    pub distillate: String,
    pub card_id: Option<String>,
    pub labels: Vec<String>,
}

/// Arguments of the `session.set-card` verb.
#[derive(Debug, Clone, PartialEq, Eq)]
pub struct SessionSetCardArgs {
    pub card_id: String,
}

/// Arguments of the `session.handover` verb.
#[derive(Debug, Clone, Default, PartialEq, Eq)]
pub struct SessionHandoverArgs {
    pub card_id: Option<String>,
    pub since: Option<String>,
}

/// Arguments of the `skill.record-invocation` verb.
#[derive(Debug, Clone, PartialEq, Eq)]
pub struct SkillRecordInvocationArgs {
    pub skill_id: String,
    pub outcome: String,
    pub correction: Option<String>,
    pub session_id: Option<String>,
    pub timestamp: Option<String>,
}

/// Arguments of the `skill.recurrence` verb.
#[derive(Debug, Clone, PartialEq, Eq)]
pub struct SkillRecurrenceArgs {
    pub skill_id: String,
    pub since: Option<String>,
}

/// Arguments of the `routine.chains` verb.
#[derive(Debug, Clone, Default, PartialEq, Eq)]
pub struct RoutineChainsArgs {}

/// Arguments of the `routine.detect` verb.
#[derive(Debug, Clone, Default, PartialEq, Eq)]
pub struct RoutineDetectArgs {}

#[derive(Debug, Clone, PartialEq, Eq)]
pub struct RoutineAuthorArgs {
    pub chain: Vec<String>,
    pub name: Option<String>,
    pub description: Option<String>,
    pub body: Option<String>,
    pub timestamp: Option<String>,
    pub occurrences: Option<usize>,
}

#[derive(Debug, Clone, PartialEq, Eq)]
pub struct RoutineVerifyArgs {
    pub path: String,
    pub timestamp: Option<String>,
}

/// Arguments of the `spec.note` verb.
#[derive(Debug, Clone, PartialEq, Eq)]
pub struct SpecNoteArgs {
    pub id: String,
    pub body: String,
    pub labels: Vec<String>,
    pub timestamp: Option<String>,
}

/// Default cap on `memory.match` results.
pub fn default_match_limit() -> (n: usize)
    ensures
        n == 10,
{
    10
}

/// Default `card.tree` depth: one hop expanded in each direction beyond the root's edges.
pub fn default_card_tree_depth() -> (n: u32)
    ensures
        n == 2,
{
    2
}

/// Default `graph` neighbourhood depth.
pub fn default_graph_depth() -> (n: u32)
    ensures
        n == 2,
{
    2
}

} // verus!
