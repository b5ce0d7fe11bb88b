//! Agent session model for the agent overview: lifecycle, display groups,
//! identity colors and compact ages.
use vstd::prelude::*;
use std::time::Duration;
use crate::text::string_of;

verus! {

/// Lifecycle of an agent session.
#[derive(Debug, Clone, Copy, PartialEq, Eq, Structural)]
pub enum AgentStatus {
    /// Pinned to the top of the view.
    Pinned,
    /// Work is done; something (a PR, a diff) is waiting for review.
    ReadyForReview,
    /// The agent is waiting for input.
    NeedsInput,
    /// The agent is actively working.
    Working,
    /// Finished successfully.
    Completed,
    /// Failed.
    Failed,
    /// Stopped / dismissed.
    Stopped,
}

/// The display groups of the overview, in display order.
#[derive(Debug, Clone, Copy, PartialEq, Eq, Structural)]
pub enum AgentGroup {
    Pinned,
    ReadyForReview,
    NeedsInput,
    Working,
    Completed,
}

impl AgentGroup {
    /// Group title as shown in the view.
    pub fn title(self) -> (r: &'static str)
        ensures
            r@ == group_title(self),
    {
        match self {
            AgentGroup::Pinned => "Pinned",
            AgentGroup::ReadyForReview => "Ready for review",
            AgentGroup::NeedsInput => "Needs input",
            AgentGroup::Working => "Working",
            AgentGroup::Completed => "Completed",
        }
    }
}

/// The group a status is shown in: failed and stopped sessions are listed
/// with the completed ones.
pub open spec fn group_of(s: AgentStatus) -> AgentGroup {
    match s {
        AgentStatus::Pinned => AgentGroup::Pinned,
        AgentStatus::ReadyForReview => AgentGroup::ReadyForReview,
        AgentStatus::NeedsInput => AgentGroup::NeedsInput,
        AgentStatus::Working => AgentGroup::Working,
        _ => AgentGroup::Completed,
    }
}

impl AgentStatus {
    /// Which group a status belongs to (Failed / Stopped land in
    /// `Completed`, colored distinctly).
    pub fn group(self) -> (g: AgentGroup)
        ensures
            g == group_of(self),
    {
        match self {
            AgentStatus::Pinned => AgentGroup::Pinned,
            AgentStatus::ReadyForReview => AgentGroup::ReadyForReview,
            AgentStatus::NeedsInput => AgentGroup::NeedsInput,
            AgentStatus::Working => AgentGroup::Working,
            AgentStatus::Completed | AgentStatus::Failed | AgentStatus::Stopped => {
                AgentGroup::Completed
            },
        }
    }

    /// Status icon; `anim` selects the animation frame for `Working`.
    pub fn icon(self, anim: bool) -> (r: &'static str)
        ensures
            r@ == icon_text(self, anim),
    {
        match self {
            AgentStatus::Pinned => "✽",
            AgentStatus::ReadyForReview => "∙",
            AgentStatus::NeedsInput => "✻",
            AgentStatus::Working => {
                if anim {
                    "✢"
                } else {
                    "✽"
                }
            },
            AgentStatus::Completed => "∙",
            AgentStatus::Failed => "✕",
            AgentStatus::Stopped => "∙",
        }
    }
}

/// The icon of status `s`; `anim` selects the animation frame for
/// `Working`.
pub open spec fn icon_text(s: AgentStatus, anim: bool) -> Seq<char> {
    match s {
        AgentStatus::Pinned => "✽"@,
        AgentStatus::ReadyForReview => "∙"@,
        AgentStatus::NeedsInput => "✻"@,
        AgentStatus::Working => if anim {
            "✢"@
        } else {
            "✽"@
        },
        AgentStatus::Completed => "∙"@,
        AgentStatus::Failed => "✕"@,
        AgentStatus::Stopped => "∙"@,
    }
}

/// The title of group `g`.
pub open spec fn group_title(g: AgentGroup) -> Seq<char> {
    match g {
        AgentGroup::Pinned => "Pinned"@,
        AgentGroup::ReadyForReview => "Ready for review"@,
        AgentGroup::NeedsInput => "Needs input"@,
        AgentGroup::Working => "Working"@,
        AgentGroup::Completed => "Completed"@,
    }
}

/// One of the eight identity colors assigned to concurrent agents.
#[derive(Debug, Clone, Copy, PartialEq, Eq, Structural)]
pub enum AgentColor {
    Red,
    Blue,
    Green,
    Yellow,
    Purple,
    Orange,
    Pink,
    Cyan,
}

/// The eight identity colors, in order.
pub const AGENT_COLORS: [AgentColor; 8] = [
    AgentColor::Red,
    AgentColor::Blue,
    AgentColor::Green,
    AgentColor::Yellow,
    AgentColor::Purple,
    AgentColor::Orange,
    AgentColor::Pink,
    AgentColor::Cyan,
];

/// The 31-multiplier string hash of `bytes`, with 32-bit wrap-around.
pub open spec fn name_hash(bytes: Seq<u8>) -> u32
    decreases bytes.len(),
{
    if bytes.len() == 0 {
        0
    } else {
        vstd::wrapping::u32_specs::wrapping_add(
            vstd::wrapping::u32_specs::wrapping_mul(name_hash(bytes.drop_last()), 31),
            bytes.last() as u32,
        )
    }
}

impl AgentColor {
    /// The eight identity colors, in order.
    pub const ALL: [AgentColor; 8] = AGENT_COLORS;

    /// Pick a stable identity color from a name (hash-based).
    pub fn from_name(name: &str) -> (c: AgentColor)
        ensures
            c == AGENT_COLORS@[(name_hash(vstd::string::StringSliceAdditionalSpecFns::spec_bytes(name)) % 8) as int],
    {
        let bytes = name.as_bytes();
        let mut hash: u32 = 0;
        let mut k: usize = 0;
        assert(bytes@.take(0) =~= Seq::<u8>::empty());
        while k < bytes.len()
            invariant
                k <= bytes@.len(),
                hash == name_hash(bytes@.take(k as int)),
            decreases bytes@.len() - k,
        {
            assert(bytes@.take(k + 1).drop_last() == bytes@.take(k as int));
            hash = hash.wrapping_mul(31).wrapping_add(bytes[k] as u32);
            k += 1;
        }
        assert(bytes@.take(bytes@.len() as int) == bytes@);
        let i: usize = (hash % 8) as usize;
        AGENT_COLORS[i]
    }
}

/// One session row of the agent overview. `L` is the display layer's type
/// for a pre-rendered transcript line.
#[derive(Debug, Clone)]
pub struct Agent<L> {
    /// Session / agent name.
    pub name: String,
    /// One-line description.
    pub description: String,
    /// Current activity sentence.
    pub activity: String,
    /// Lifecycle status.
    pub status: AgentStatus,
    /// Identity color of the name.
    pub color: AgentColor,
    /// Optional associated PR number (shown as `#N`).
    pub pr: Option<u32>,
    /// Age of the session.
    pub age: Option<Duration>,
    /// Token count for the status line.
    pub tokens: Option<usize>,
    /// How long the agent has been waiting for input.
    pub waiting: Option<Duration>,
    /// Result / status sentence.
    pub result: Option<String>,
    /// Pre-rendered transcript lines.
    pub transcript_lines: Vec<L>,
}

impl<L> Agent<L> {
    /// Build an agent with the given name and status; every other field is
    /// empty, and the identity color is cyan.
    pub fn new(name: &str, status: AgentStatus) -> (a: Self)
        ensures
            a.name@ == name@,
            a.description@ == Seq::<char>::empty(),
            a.activity@ == Seq::<char>::empty(),
            a.status == status,
            a.color == AgentColor::Cyan,
            a.pr.is_none(),
            a.age.is_none(),
            a.tokens.is_none(),
            a.waiting.is_none(),
            a.result.is_none(),
            a.transcript_lines@.len() == 0,
    {
        Agent {
            name: name.to_owned(),
            description: String::new(),
            activity: String::new(),
            status,
            color: AgentColor::Cyan,
            pr: None,
            age: None,
            tokens: None,
            waiting: None,
            result: None,
            transcript_lines: Vec::new(),
        }
    }

    /// Set the one-line description.
    pub fn description(self, description: &str) -> (a: Self)
        ensures
            a == (Agent { description: a.description, ..self }),
            a.description@ == description@,
    {
        Agent { description: description.to_owned(), ..self }
    }

    /// Set the current activity sentence.
    pub fn activity(self, activity: &str) -> (a: Self)
        ensures
            a == (Agent { activity: a.activity, ..self }),
            a.activity@ == activity@,
    {
        Agent { activity: activity.to_owned(), ..self }
    }

    /// Set the identity color.
    pub fn color(self, color: AgentColor) -> (a: Self)
        ensures
            a == (Agent { color, ..self }),
    {
        Agent { color, ..self }
    }

    /// Attach an associated PR number.
    pub fn pr(self, pr: u32) -> (a: Self)
        ensures
            a == (Agent { pr: Some(pr), ..self }),
    {
        Agent { pr: Some(pr), ..self }
    }

    /// Set the session age.
    pub fn age(self, age: Duration) -> (a: Self)
        ensures
            a == (Agent { age: Some(age), ..self }),
    {
        Agent { age: Some(age), ..self }
    }

    /// Set the token count.
    pub fn tokens(self, tokens: usize) -> (a: Self)
        ensures
            a == (Agent { tokens: Some(tokens), ..self }),
    {
        Agent { tokens: Some(tokens), ..self }
    }

    /// Set the waiting duration.
    pub fn waiting(self, waiting: Duration) -> (a: Self)
        ensures
            a == (Agent { waiting: Some(waiting), ..self }),
    {
        Agent { waiting: Some(waiting), ..self }
    }

    /// Set the result / status sentence.
    pub fn result(self, result: &str) -> (a: Self)
        ensures
            a == (Agent { result: a.result, ..self }),
            a.result is Some,
            a.result->0@ == result@,
    {
        Agent { result: Some(result.to_owned()), ..self }
    }

    /// Attach the pre-rendered transcript.
    pub fn transcript(self, lines: Vec<L>) -> (a: Self)
        ensures
            a == (Agent { transcript_lines: lines, ..self }),
    {
        Agent { transcript_lines: lines, ..self }
    }
}

/// Whether `name` is one of `names`.
pub open spec fn names_contain(names: Seq<String>, name: Seq<char>) -> bool {
    exists|k: int| 0 <= k < names.len() && (#[trigger] names[k])@ == name
}

/// The first position at or after `i` of an agent called `name`, or -1.
pub open spec fn index_of_name<L>(agents: Seq<Agent<L>>, name: Seq<char>, i: int) -> int
    decreases agents.len() - i,
{
    if i < 0 || i >= agents.len() {
        -1
    } else if agents[i].name@ == name {
        i
    } else {
        index_of_name(agents, name, i + 1)
    }
}

/// One step of a merge: a dismissed name is ignored, an agent whose name is
/// already listed replaces the first such entry in place, any other agent is
/// appended.
pub open spec fn merge_one<L>(agents: Seq<Agent<L>>, agent: Agent<L>, dismissed: Seq<String>) -> Seq<Agent<L>> {
    if names_contain(dismissed, agent.name@) {
        agents
    } else {
        let j = index_of_name(agents, agent.name@, 0);
        if j >= 0 {
            agents.update(j, agent)
        } else {
            agents.push(agent)
        }
    }
}

/// Merging a snapshot: its agents are merged one after the other, in order.
pub open spec fn merged<L>(agents: Seq<Agent<L>>, incoming: Seq<Agent<L>>, dismissed: Seq<String>) -> Seq<Agent<L>>
    decreases incoming.len(),
{
    if incoming.len() == 0 {
        agents
    } else {
        merged(merge_one(agents, incoming[0], dismissed), incoming.drop_first(), dismissed)
    }
}

proof fn lemma_index_of_name_range<L>(agents: Seq<Agent<L>>, name: Seq<char>, i: int)
    ensures
        index_of_name(agents, name, i) == -1 || (i <= index_of_name(agents, name, i)
            < agents.len() && agents[index_of_name(agents, name, i)].name@ == name),
        index_of_name(agents, name, i) == -1 && 0 <= i ==> forall|k: int|
            i <= k < agents.len() ==> (#[trigger] agents[k]).name@ != name,
    decreases agents.len() - i,
{
    if 0 <= i < agents.len() && agents[i].name@ != name {
        lemma_index_of_name_range(agents, name, i + 1);
    }
}

/// The position of the first agent called `name`.
fn find_name<L>(agents: &Vec<Agent<L>>, name: &String) -> (r: Option<usize>)
    ensures
        match r {
            Some(j) => j as int == index_of_name(agents@, name@, 0),
            None => index_of_name(agents@, name@, 0) == -1,
        },
{
    let mut i: usize = 0;
    while i < agents.len()
        invariant
            i <= agents@.len(),
            index_of_name(agents@, name@, 0) == index_of_name(agents@, name@, i as int),
        decreases agents@.len() - i,
    {
        if agents[i].name == *name {
            return Some(i);
        }
        i += 1;
    }
    None
}

/// Whether `name` is one of `names`.
fn contains_name(names: &[String], name: &String) -> (r: bool)
    ensures
        r == names_contain(names@, name@),
{
    let mut k: usize = 0;
    while k < names.len()
        invariant
            k <= names@.len(),
            forall|j: int| 0 <= j < k ==> (#[trigger] names@[j])@ != name@,
        decreases names@.len() - k,
    {
        if names[k] == *name {
            return true;
        }
        k += 1;
    }
    false
}

/// Merge a fresh snapshot into existing agents: same-name agents are
/// updated in place, new ones appended, names in `dismissed` ignored.
pub fn merge_agents<L>(existing: &mut Vec<Agent<L>>, incoming: Vec<Agent<L>>, dismissed: &[String])
    ensures
        final(existing)@ == merged(old(existing)@, incoming@, dismissed@),
{
    let mut rest = incoming;
    let ghost goal = merged(existing@, incoming@, dismissed@);
    while rest.len() > 0
        invariant
            merged(existing@, rest@, dismissed@) == goal,
        decreases rest@.len(),
    {
        let ghost before = rest@;
        let agent = rest.remove(0);
        assert(rest@ =~= before.drop_first());
        if !contains_name(dismissed, &agent.name) {
            match find_name(existing, &agent.name) {
                Some(j) => {
                    proof { lemma_index_of_name_range(existing@, agent.name@, 0); }
                    existing.set(j, agent);
                },
                None => {
                    existing.push(agent);
                },
            }
        }
    }
}

/// Merging a snapshot keeps every listed agent's name at its position,
/// appends only agents whose names are not dismissed, and leaves every
/// agent of the snapshot whose name is not dismissed listed.
pub proof fn lemma_merge_in_place<L>(existing: Seq<Agent<L>>, incoming: Seq<Agent<L>>, dismissed: Seq<String>)
    ensures
        ({
            let r = merged(existing, incoming, dismissed);
            &&& r.len() >= existing.len()
            &&& forall|k: int| 0 <= k < existing.len() ==> (#[trigger] r[k]).name@ == existing[k].name@
            &&& forall|k: int|
                existing.len() <= k < r.len() ==> !names_contain(dismissed, (#[trigger] r[k]).name@)
            &&& forall|i: int|
                0 <= i < incoming.len() && !names_contain(dismissed, (#[trigger] incoming[i]).name@)
                    ==> exists|k: int| 0 <= k < r.len() && (#[trigger] r[k]).name@ == incoming[i].name@
        }),
    decreases incoming.len(),
{
    if incoming.len() > 0 {
        let a = incoming[0];
        let step = merge_one(existing, a, dismissed);
        lemma_index_of_name_range(existing, a.name@, 0);
        lemma_merge_in_place(step, incoming.drop_first(), dismissed);
        let r = merged(existing, incoming, dismissed);
        assert(r == merged(step, incoming.drop_first(), dismissed));
        assert forall|k: int| 0 <= k < existing.len() implies (#[trigger] r[k]).name@ == existing[k].name@ by {
            assert(r[k].name@ == step[k].name@);
        }
        assert forall|k: int|
            existing.len() <= k < r.len() implies !names_contain(dismissed, (#[trigger] r[k]).name@) by {
            if k < step.len() {
                assert(r[k].name@ == step[k].name@);
            }
        }
        assert forall|i: int|
            0 <= i < incoming.len() && !names_contain(dismissed, (#[trigger] incoming[i]).name@)
            implies exists|k: int| 0 <= k < r.len() && (#[trigger] r[k]).name@ == incoming[i].name@ by {
            if i == 0 {
                let j = index_of_name(existing, a.name@, 0);
                let k = if j >= 0 { j } else { existing.len() as int };
                assert(step[k].name@ == a.name@);
                assert(r[k].name@ == step[k].name@);
            } else {
                assert(incoming[i] == incoming.drop_first()[i - 1]);
            }
        }
    }
}

proof fn lemma_index_none<L>(agents: Seq<Agent<L>>, name: Seq<char>, i: int)
    requires
        0 <= i,
        forall|k: int| i <= k < agents.len() ==> (#[trigger] agents[k]).name@ != name,
    ensures
        index_of_name(agents, name, i) == -1,
    decreases agents.len() - i,
{
    if i < agents.len() {
        lemma_index_none(agents, name, i + 1);
    }
}

/// Position of the first agent of `incoming` called `name` (its length when
/// none is).
pub open spec fn first_named<L>(incoming: Seq<Agent<L>>, name: Seq<char>) -> nat
    decreases incoming.len(),
{
    if incoming.len() == 0 {
        0
    } else if incoming[0].name@ == name {
        0
    } else {
        1 + first_named(incoming.drop_first(), name)
    }
}

/// No two agents share a name.
#[verifier::opaque]
pub open spec fn names_distinct<L>(a: Seq<Agent<L>>) -> bool {
    forall|i: int, j: int| 0 <= i < j < a.len() ==> (#[trigger] a[i]).name@ != (#[trigger] a[j]).name@
}

/// Some agent of `incoming` whose name is not dismissed is called `name`.
pub open spec fn merges_name<L>(incoming: Seq<Agent<L>>, dismissed: Seq<String>, name: Seq<char>) -> bool {
    exists|i: int|
        0 <= i < incoming.len() && (#[trigger] incoming[i]).name@ == name && !names_contain(
            dismissed,
            name,
        )
}

proof fn lemma_merge_one_distinct<L>(existing: Seq<Agent<L>>, agent: Agent<L>, dismissed: Seq<String>)
    requires
        names_distinct(existing),
    ensures
        names_distinct(merge_one(existing, agent, dismissed)),
{
    reveal(names_distinct);
    lemma_index_of_name_range(existing, agent.name@, 0);
    let r = merge_one(existing, agent, dismissed);
    if !names_contain(dismissed, agent.name@) {
        let j = index_of_name(existing, agent.name@, 0);
        if j >= 0 {
            assert forall|a: int, b: int| 0 <= a < b < r.len() implies (#[trigger] r[a]).name@
                != (#[trigger] r[b]).name@ by {
                assert(r[a].name@ == existing[a].name@);
                assert(r[b].name@ == existing[b].name@);
            }
        } else {
            assert forall|a: int, b: int| 0 <= a < b < r.len() implies (#[trigger] r[a]).name@
                != (#[trigger] r[b]).name@ by {
                if b == existing.len() {
                    assert(existing[a].name@ != agent.name@);
                } else {
                    assert(r[a] == existing[a]);
                    assert(r[b] == existing[b]);
                }
            }
        }
    }
}

proof fn lemma_step_places<L>(existing: Seq<Agent<L>>, agent: Agent<L>, dismissed: Seq<String>) -> (k0: int)
    requires
        !names_contain(dismissed, agent.name@),
    ensures
        0 <= k0 < merge_one(existing, agent, dismissed).len(),
        merge_one(existing, agent, dismissed)[k0] == agent,
{
    lemma_index_of_name_range(existing, agent.name@, 0);
    let j0 = index_of_name(existing, agent.name@, 0);
    if j0 >= 0 {
        j0
    } else {
        existing.len() as int
    }
}

proof fn lemma_step_keeps<L>(existing: Seq<Agent<L>>, agent: Agent<L>, dismissed: Seq<String>, k: int)
    requires
        0 <= k < existing.len(),
        names_contain(dismissed, agent.name@) || agent.name@ != existing[k].name@,
    ensures
        k < merge_one(existing, agent, dismissed).len(),
        merge_one(existing, agent, dismissed)[k] == existing[k],
{
    lemma_index_of_name_range(existing, agent.name@, 0);
}

proof fn lemma_rest_names<L>(incoming: Seq<Agent<L>>, dismissed: Seq<String>, name: Seq<char>)
    requires
        incoming.len() > 0,
        merges_name(incoming.drop_first(), dismissed, name),
    ensures
        merges_name(incoming, dismissed, name),
{
    let rest = incoming.drop_first();
    let m = choose|m: int|
        0 <= m < rest.len() && (#[trigger] rest[m]).name@ == name && !names_contain(dismissed, name);
    assert(rest[m] == incoming[m + 1]);
}

/// Merging into agents with distinct names keeps the names distinct, lists
/// the last version of every agent of the snapshot whose name is not
/// dismissed, and leaves every listed agent that the snapshot does not name
/// as it was.
pub proof fn lemma_merge_last_version<L>(
    existing: Seq<Agent<L>>,
    incoming: Seq<Agent<L>>,
    dismissed: Seq<String>,
)
    requires
        names_distinct(existing),
    ensures
        ({
            let r = merged(existing, incoming, dismissed);
            &&& names_distinct(r)
            &&& forall|i: int|
                0 <= i < incoming.len() && !names_contain(dismissed, (#[trigger] incoming[i]).name@)
                    && (forall|j: int| i < j < incoming.len() ==> (#[trigger] incoming[j]).name@ != incoming[i].name@)
                    ==> exists|k: int| 0 <= k < r.len() && r[k] == incoming[i]
            &&& forall|k: int|
                0 <= k < existing.len() && !merges_name(incoming, dismissed, (#[trigger] existing[k]).name@)
                    ==> r[k] == existing[k]
        }),
    decreases incoming.len(),
{
    if incoming.len() > 0 {
        let a = incoming[0];
        let rest = incoming.drop_first();
        let step = merge_one(existing, a, dismissed);
        lemma_merge_one_distinct(existing, a, dismissed);
        lemma_merge_last_version(step, rest, dismissed);
        lemma_merge_in_place(step, rest, dismissed);
        let r = merged(existing, incoming, dismissed);
        assert(r == merged(step, rest, dismissed));
        assert forall|i: int|
            0 <= i < incoming.len() && !names_contain(dismissed, (#[trigger] incoming[i]).name@)
                && (forall|j: int| i < j < incoming.len() ==> (#[trigger] incoming[j]).name@ != incoming[i].name@)
                implies exists|k: int| 0 <= k < r.len() && r[k] == incoming[i] by {
            if i > 0 {
                assert(rest[i - 1] == incoming[i]);
                assert forall|j: int| i - 1 < j < rest.len() implies (#[trigger] rest[j]).name@
                    != rest[i - 1].name@ by {
                    assert(rest[j] == incoming[j + 1]);
                }
                assert(exists|k: int| 0 <= k < r.len() && r[k] == rest[i - 1]);
            } else {
                let k0 = lemma_step_places(existing, a, dismissed);
                if merges_name(rest, dismissed, a.name@) {
                    let m = choose|m: int|
                        0 <= m < rest.len() && (#[trigger] rest[m]).name@ == a.name@
                            && !names_contain(dismissed, a.name@);
                    assert(rest[m] == incoming[m + 1]);
                }
                assert(!merges_name(rest, dismissed, step[k0].name@));
                assert(r[k0] == step[k0]);
                assert(0 <= k0 < r.len());
            }
        }
        assert forall|k: int|
            0 <= k < existing.len() && !merges_name(incoming, dismissed, (#[trigger] existing[k]).name@)
                implies r[k] == existing[k] by {
            if merges_name(rest, dismissed, existing[k].name@) {
                lemma_rest_names(incoming, dismissed, existing[k].name@);
            }
            if !names_contain(dismissed, a.name@) && a.name@ == existing[k].name@ {
                assert(incoming[0].name@ == existing[k].name@);
                assert(merges_name(incoming, dismissed, existing[k].name@));
            }
            lemma_step_keeps(existing, a, dismissed, k);
            assert(r[k] == step[k]);
        }
    }
}


/// Decimal digits.
pub const DIGITS: [char; 10] = ['0', '1', '2', '3', '4', '5', '6', '7', '8', '9'];

/// The decimal spelling of `n`.
pub open spec fn decimal(n: nat) -> Seq<char>
    decreases n,
{
    if n < 10 {
        seq![DIGITS@[n as int]]
    } else {
        decimal(n / 10).push(DIGITS@[(n % 10) as int])
    }
}

/// `10` to the power `k`.
pub open spec fn pow10(k: nat) -> nat
    decreases k,
{
    if k == 0 {
        1
    } else {
        10 * pow10((k - 1) as nat)
    }
}

proof fn lemma_decimal_len_below(n: nat, k: nat)
    requires
        1 <= k,
        n < pow10(k),
    ensures
        decimal(n).len() <= k,
    decreases n,
{
    if n >= 10 {
        let p = pow10((k - 1) as nat);
        assert(k >= 2) by {
            if k == 1 {
                assert(pow10(1) == 10 * pow10(0));
            }
        }
        assert(n / 10 < p) by (nonlinear_arith)
            requires
                n < 10 * p,
        ;
        lemma_decimal_len_below(n / 10, (k - 1) as nat);
    }
}

/// A `u64` has at most twenty decimal digits.
pub proof fn lemma_decimal_len(n: nat)
    requires
        n <= u64::MAX,
    ensures
        1 <= decimal(n).len() <= 20,
{
    assert(pow10(20) == 100000000000000000000nat) by {
        reveal_with_fuel(pow10, 21);
    }
    lemma_decimal_len_below(n, 20);
    if n < 10 {
    } else {
        assert(decimal(n).len() == decimal(n / 10).len() + 1);
    }
}

pub(crate) fn decimal_exec(n: u64) -> (r: Vec<char>)
    ensures
        r@ == decimal(n as nat),
    decreases n,
{
    if n < 10 {
        let mut v: Vec<char> = Vec::new();
        v.push(DIGITS[n as usize]);
        assert(v@ =~= seq![DIGITS@[n as int]]);
        v
    } else {
        let mut v = decimal_exec(n / 10);
        v.push(DIGITS[(n % 10) as usize]);
        v
    }
}

/// Compact age text: seconds under a minute, minutes under an hour, hours
/// under a day, else days.
pub open spec fn age_text(secs: u64) -> Seq<char> {
    if secs < 60 {
        decimal(secs as nat).push('s')
    } else if secs < 3600 {
        decimal((secs / 60) as nat).push('m')
    } else if secs < 86400 {
        decimal((secs / 3600) as nat).push('h')
    } else {
        decimal((secs / 86400) as nat).push('d')
    }
}

/// Compact age formatting of a number of seconds: `42s`, `3m`, `2h`, `1d`.
pub fn fmt_age_secs(secs: u64) -> (r: String)
    ensures
        r@ == age_text(secs),
{
    let (n, unit) = if secs < 60 {
        (secs, 's')
    } else if secs < 3600 {
        (secs / 60, 'm')
    } else if secs < 86400 {
        (secs / 3600, 'h')
    } else {
        (secs / 86400, 'd')
    };
    let mut v = decimal_exec(n);
    v.push(unit);
    string_of(&v)
}

/// What `Duration::as_secs` gives for a duration: its whole seconds.
pub uninterp spec fn duration_secs(d: Duration) -> u64;

/// `std::time::Duration::as_secs`: the whole seconds of a duration, a
/// function of the duration alone (named: a `Duration` is opaque here).
#[verifier::external_body]
fn secs_of(d: Duration) -> (r: u64)
    ensures
        r == duration_secs(d),
{
    d.as_secs()
}

/// Compact age formatting of a duration's whole seconds: `42s`, `3m`,
/// `2h`, `1d`.
pub fn fmt_age(d: Duration) -> (r: String)
    ensures
        r@ == age_text(duration_secs(d)),
{
    let secs = secs_of(d);
    fmt_age_secs(secs)
}

proof fn lemma_merge_members<L>(existing: Seq<Agent<L>>, incoming: Seq<Agent<L>>, dismissed: Seq<String>)
    ensures
        forall|k: int|
            0 <= k < merged(existing, incoming, dismissed).len() ==> (k < existing.len()
                && #[trigger] merged(existing, incoming, dismissed)[k] == existing[k]) || exists|i: int|
                0 <= i < incoming.len() && incoming[i] == merged(existing, incoming, dismissed)[k],
    decreases incoming.len(),
{
    if incoming.len() > 0 {
        let a = incoming[0];
        let rest = incoming.drop_first();
        let step = merge_one(existing, a, dismissed);
        lemma_merge_members(step, rest, dismissed);
        lemma_index_of_name_range(existing, a.name@, 0);
        let r = merged(existing, incoming, dismissed);
        assert(r == merged(step, rest, dismissed));
        assert forall|k: int| 0 <= k < r.len() implies (k < existing.len() && #[trigger] r[k] == existing[k])
            || exists|i: int| 0 <= i < incoming.len() && incoming[i] == r[k] by {
            if k < step.len() && r[k] == step[k] {
                if !(k < existing.len() && step[k] == existing[k]) {
                    assert(incoming[0] == r[k]);
                }
            } else {
                let i = choose|i: int| 0 <= i < rest.len() && rest[i] == r[k];
                assert(incoming[i + 1] == rest[i]);
            }
        }
    }
}

proof fn lemma_merge_new_names<L>(existing: Seq<Agent<L>>, incoming: Seq<Agent<L>>, dismissed: Seq<String>)
    ensures
        forall|k: int|
            existing.len() <= k < merged(existing, incoming, dismissed).len() ==> index_of_name(
                existing,
                (#[trigger] merged(existing, incoming, dismissed)[k]).name@,
                0,
            ) == -1,
    decreases incoming.len(),
{
    if incoming.len() > 0 {
        let a = incoming[0];
        let rest = incoming.drop_first();
        let step = merge_one(existing, a, dismissed);
        lemma_index_of_name_range(existing, a.name@, 0);
        lemma_merge_new_names(step, rest, dismissed);
        lemma_merge_in_place(step, rest, dismissed);
        let r = merged(existing, incoming, dismissed);
        assert(r == merged(step, rest, dismissed));
        let n = existing.len() as int;
        assert forall|k: int| n <= k < r.len() implies index_of_name(existing, (#[trigger] r[k]).name@, 0) == -1 by {
            if k < step.len() {
                assert(r[k].name@ == step[k].name@);
                assert(step[k] == a);
            } else {
                lemma_index_of_name_range(step, r[k].name@, 0);
                assert forall|j: int| 0 <= j < n implies (#[trigger] existing[j]).name@ != r[k].name@ by {
                    assert(step[j].name@ == existing[j].name@);
                }
                lemma_index_none(existing, r[k].name@, 0);
            }
        }
    }
}

proof fn lemma_merge_distinct<L>(existing: Seq<Agent<L>>, incoming: Seq<Agent<L>>, dismissed: Seq<String>)
    requires
        names_distinct(existing),
    ensures
        names_distinct(merged(existing, incoming, dismissed)),
{
    lemma_merge_last_version(existing, incoming, dismissed);
}

proof fn lemma_merge_keeps_names<L>(existing: Seq<Agent<L>>, incoming: Seq<Agent<L>>, dismissed: Seq<String>)
    ensures
        merged(existing, incoming, dismissed).len() >= existing.len(),
        forall|k: int|
            0 <= k < existing.len() ==> (#[trigger] merged(existing, incoming, dismissed)[k]).name@
                == existing[k].name@,
{
    lemma_merge_in_place(existing, incoming, dismissed);
}

/// The names listed after the first step of a merge differ from the name
/// of the snapshot's first agent.
proof fn lemma_later_names<L>(existing: Seq<Agent<L>>, incoming: Seq<Agent<L>>, dismissed: Seq<String>)
    requires
        incoming.len() > 0,
    ensures
        forall|x: int|
            merge_one(existing, incoming[0], dismissed).len() <= x < merged(existing, incoming, dismissed).len()
                ==> (#[trigger] merged(existing, incoming, dismissed)[x]).name@ != incoming[0].name@,
{
    let a = incoming[0];
    let rest = incoming.drop_first();
    let step = merge_one(existing, a, dismissed);
    let r = merged(existing, incoming, dismissed);
    assert(r == merged(step, rest, dismissed));
    lemma_index_of_name_range(existing, a.name@, 0);
    lemma_merge_new_names(step, rest, dismissed);
    lemma_merge_in_place(step, rest, dismissed);
    let n = existing.len() as int;
    assert forall|x: int| step.len() <= x < r.len() implies (#[trigger] r[x]).name@ != a.name@ by {
        lemma_index_of_name_range(step, r[x].name@, 0);
        if !names_contain(dismissed, a.name@) {
            if index_of_name(existing, a.name@, 0) < 0 {
                assert(step[n].name@ == a.name@);
            } else {
                let j = index_of_name(existing, a.name@, 0);
                assert(step[j].name@ == a.name@);
            }
        }
    }
}

proof fn lemma_merge_order<L>(existing: Seq<Agent<L>>, incoming: Seq<Agent<L>>, dismissed: Seq<String>)
    requires
        names_distinct(existing),
    ensures
        forall|k: int, m: int|
            existing.len() <= k < m < merged(existing, incoming, dismissed).len() ==> first_named(
                incoming,
                (#[trigger] merged(existing, incoming, dismissed)[k]).name@,
            ) < first_named(incoming, (#[trigger] merged(existing, incoming, dismissed)[m]).name@),
    decreases incoming.len(),
{
    if incoming.len() > 0 {
        let a = incoming[0];
        let rest = incoming.drop_first();
        let step = merge_one(existing, a, dismissed);
        lemma_merge_one_distinct(existing, a, dismissed);
        lemma_merge_order(step, rest, dismissed);
        lemma_later_names(existing, incoming, dismissed);
        lemma_merge_keeps_names(step, rest, dismissed);
        lemma_merge_distinct(step, rest, dismissed);
        lemma_index_of_name_range(existing, a.name@, 0);
        let r = merged(existing, incoming, dismissed);
        assert(r == merged(step, rest, dismissed));
        let n = existing.len() as int;
        assert forall|k: int, m: int| n <= k < m < r.len() implies first_named(incoming, (#[trigger] r[k]).name@)
            < first_named(incoming, (#[trigger] r[m]).name@) by {
            if k < step.len() {
                assert(r[k].name@ == step[k].name@);
                assert(step[k] == a);
                assert(r[m].name@ != r[k].name@) by {
                    reveal(names_distinct);
                }
            } else {
                assert(r[k].name@ != a.name@);
                assert(r[m].name@ != a.name@);
            }
        }
    }
}

/// Merging into agents with distinct names lists nothing but the listed
/// agents and agents of the snapshot, and appends, after the listed ones,
/// agents of the snapshot under names not listed before, in the order in
/// which their names first appear in the snapshot.
pub proof fn lemma_merge_appended<L>(existing: Seq<Agent<L>>, incoming: Seq<Agent<L>>, dismissed: Seq<String>)
    requires
        names_distinct(existing),
    ensures
        ({
            let r = merged(existing, incoming, dismissed);
            &&& forall|k: int|
                0 <= k < r.len() ==> (k < existing.len() && #[trigger] r[k] == existing[k]) || exists|i: int|
                    0 <= i < incoming.len() && incoming[i] == r[k]
            &&& forall|k: int|
                existing.len() <= k < r.len() ==> index_of_name(existing, (#[trigger] r[k]).name@, 0) == -1
            &&& forall|k: int, m: int|
                existing.len() <= k < m < r.len() ==> first_named(incoming, (#[trigger] r[k]).name@)
                    < first_named(incoming, (#[trigger] r[m]).name@)
        }),
{
    lemma_merge_members(existing, incoming, dismissed);
    lemma_merge_new_names(existing, incoming, dismissed);
    lemma_merge_order(existing, incoming, dismissed);
}


/// Merging into agents with distinct names updates a listed agent in place
/// to the last agent of the snapshot under its name, when that name is not
/// dismissed.
pub proof fn lemma_merge_updates_in_place<L>(existing: Seq<Agent<L>>, incoming: Seq<Agent<L>>, dismissed: Seq<String>)
    requires
        names_distinct(existing),
    ensures
        forall|k: int, i: int|
            0 <= k < existing.len() && 0 <= i < incoming.len() && (#[trigger] incoming[i]).name@
                == (#[trigger] existing[k]).name@ && !names_contain(dismissed, incoming[i].name@) && (forall|j: int|
                i < j < incoming.len() ==> (#[trigger] incoming[j]).name@ != incoming[i].name@)
                ==> merged(existing, incoming, dismissed)[k] == incoming[i],
{
    lemma_merge_last_version(existing, incoming, dismissed);
    lemma_merge_keeps_names(existing, incoming, dismissed);
    let r = merged(existing, incoming, dismissed);
    assert forall|k: int, i: int|
        0 <= k < existing.len() && 0 <= i < incoming.len() && (#[trigger] incoming[i]).name@
            == (#[trigger] existing[k]).name@ && !names_contain(dismissed, incoming[i].name@) && (forall|j: int|
            i < j < incoming.len() ==> (#[trigger] incoming[j]).name@ != incoming[i].name@)
            implies r[k] == incoming[i] by {
        let k2 = choose|k2: int| 0 <= k2 < r.len() && r[k2] == incoming[i];
        assert(r[k].name@ == existing[k].name@);
        if k2 != k {
            reveal(names_distinct);
            if k < k2 {
                assert(r[k].name@ != r[k2].name@);
            } else {
                assert(r[k2].name@ != r[k].name@);
            }
        }
    }
}

} // verus!
