//! A company as the team section reads it: its effective roster, the
//! teammates an operator added, and its desks.

use vstd::prelude::*;
use crate::salvage::calls::strings_view;
use crate::text::{chars_of, string_is, trim, trim_range};
use crate::team::words::{w_orchestrator, w_orchestrator_chars};

verus! {

broadcast use vstd::std_specs::vec::group_vec_axioms;

/// One agent of the manifest roster, with any operator edit applied.
pub struct AgentSpec {
    pub id: String,
    pub name: Option<String>,
    pub role: String,
    pub description: Option<String>,
    pub tier: Option<String>,
    /// Who this agent may bring in, by desk or teammate id; `None` when its
    /// entry does not say, which leaves it the whole roster.
    pub delegates_to: Option<Vec<String>>,
}

/// A teammate an operator added, which has no manifest row.
pub struct OverlayAgent {
    pub id: String,
    pub name: String,
    pub role: String,
    pub description: Option<String>,
}

/// A desk's id and its operator-facing name.
pub struct NamedDesk {
    pub id: String,
    pub name: String,
}

/// A desk's id, its effective members in order, and its lead.
pub struct DeskSeats {
    pub id: String,
    pub members: Vec<String>,
    pub lead: Option<String>,
}

/// A company as the team section reads it.
///
/// `agents` is the effective manifest roster (removed agents gone, operator
/// edits applied), in declaration order; `overlay_agents` the teammates an
/// operator added; `group_chats` and `overlay_desks` name the desks; `desks`
/// holds each desk's effective members and lead.
pub struct CompanyRecord {
    pub company_name: String,
    pub agents: Vec<AgentSpec>,
    pub overlay_agents: Vec<OverlayAgent>,
    pub group_chats: Vec<NamedDesk>,
    pub overlay_desks: Vec<NamedDesk>,
    pub desks: Vec<DeskSeats>,
}

pub open spec fn opt_str(o: Option<String>) -> Option<Seq<char>> {
    match o {
        Some(s) => Some(s@),
        None => None,
    }
}

/// The ids of `agents`, in order.
pub open spec fn agent_ids(agents: Seq<AgentSpec>) -> Seq<Seq<char>> {
    Seq::new(agents.len(), |k: int| agents[k].id@)
}

/// The ids of `overlays`, in order.
pub open spec fn overlay_ids(overlays: Seq<OverlayAgent>) -> Seq<Seq<char>> {
    Seq::new(overlays.len(), |k: int| overlays[k].id@)
}

/// The first of `agents` from the `k`-th on whose tier is `orchestrator`.
pub open spec fn tagged_from(agents: Seq<AgentSpec>, k: int) -> Option<Seq<char>>
    decreases agents.len() - k,
{
    if k < 0 || k >= agents.len() {
        None
    } else if opt_str(agents[k].tier) == Some(w_orchestrator()) {
        Some(agents[k].id@)
    } else {
        tagged_from(agents, k + 1)
    }
}

/// The orchestrator of a roster: the agent tagged with the `orchestrator`
/// tier, else the first agent, else nobody.
pub open spec fn orchestrator_of(agents: Seq<AgentSpec>) -> Option<Seq<char>> {
    match tagged_from(agents, 0) {
        Some(id) => Some(id),
        None => if agents.len() > 0 {
            Some(agents[0].id@)
        } else {
            None
        },
    }
}

/// The id of a roster's orchestrator: the agent whose tier is
/// `orchestrator`, else the first agent, else `None` for an empty roster.
pub fn orchestrator_id(roster: &[AgentSpec]) -> (r: Option<String>)
    ensures
        opt_str(r) == orchestrator_of(roster@),
{
    let ow = w_orchestrator_chars();
    let mut k: usize = 0;
    while k < roster.len()
        invariant
            k <= roster@.len(),
            ow@ == w_orchestrator(),
            tagged_from(roster@, 0) == tagged_from(roster@, k as int),
        decreases roster.len() - k,
    {
        let tagged = match &roster[k].tier {
            Some(t) => string_is(t, ow.as_slice()),
            None => false,
        };
        if tagged {
            return Some(roster[k].id.clone());
        }
        k = k + 1;
    }
    if roster.len() > 0 {
        Some(roster[0].id.clone())
    } else {
        None
    }
}

/// The name of the first of `desks` from the `k`-th on whose id is `d`.
pub open spec fn named_from(desks: Seq<NamedDesk>, d: Seq<char>, k: int) -> Option<Seq<char>>
    decreases desks.len() - k,
{
    if k < 0 || k >= desks.len() {
        None
    } else if desks[k].id@ == d {
        Some(desks[k].name@)
    } else {
        named_from(desks, d, k + 1)
    }
}

/// A desk's operator-facing name: its group chat's name, else its overlay
/// desk's name; its id when the name found is blank or there is none.
pub open spec fn desk_label_of(rec: CompanyRecord, d: Seq<char>) -> Seq<char> {
    let found = match named_from(rec.group_chats@, d, 0) {
        Some(n) => Some(n),
        None => named_from(rec.overlay_desks@, d, 0),
    };
    match found {
        Some(n) => if trim(n).len() == 0 {
            d
        } else {
            n
        },
        None => d,
    }
}

fn find_named(desks: &Vec<NamedDesk>, d: &[char]) -> (r: Option<Vec<char>>)
    ensures
        (match r {
            Some(n) => Some(n@),
            None => None::<Seq<char>>,
        }) == named_from(desks@, d@, 0),
{
    let mut k: usize = 0;
    while k < desks.len()
        invariant
            k <= desks@.len(),
            named_from(desks@, d@, 0) == named_from(desks@, d@, k as int),
        decreases desks.len() - k,
    {
        if string_is(&desks[k].id, d) {
            return Some(chars_of(desks[k].name.as_str()));
        }
        k = k + 1;
    }
    None
}

/// The name a desk is shown under, falling back to its id.
pub fn desk_label(record: &CompanyRecord, desk_id: &[char]) -> (r: Vec<char>)
    ensures
        r@ == desk_label_of(*record, desk_id@),
{
    let found = match find_named(&record.group_chats, desk_id) {
        Some(n) => Some(n),
        None => find_named(&record.overlay_desks, desk_id),
    };
    match found {
        Some(n) => {
            let (a, b) = trim_range(n.as_slice(), 0, n.len());
            assert(n@.subrange(0, n@.len() as int) =~= n@);
            if a == b {
                let mut v: Vec<char> = Vec::new();
                crate::text::push_all(&mut v, desk_id);
                assert(v@ =~= desk_id@);
                v
            } else {
                n
            }
        },
        None => {
            let mut v: Vec<char> = Vec::new();
            crate::text::push_all(&mut v, desk_id);
            assert(v@ =~= desk_id@);
            v
        },
    }
}

/// Whether `id` is on the company's roster: a manifest agent or an
/// operator-added one.
pub open spec fn on_roster(rec: CompanyRecord, id: Seq<char>) -> bool {
    agent_ids(rec.agents@).contains(id) || overlay_ids(rec.overlay_agents@).contains(id)
}

/// Whether `id` is on the company's roster.
pub fn is_roster_agent(record: &CompanyRecord, id: &[char]) -> (r: bool)
    ensures
        r == on_roster(*record, id@),
{
    let ghost ai = agent_ids(record.agents@);
    let ghost oi = overlay_ids(record.overlay_agents@);
    let mut k: usize = 0;
    while k < record.agents.len()
        invariant
            k <= record.agents@.len(),
            ai == agent_ids(record.agents@),
            forall|q: int| 0 <= q < k ==> ai[q] != id@,
        decreases record.agents.len() - k,
    {
        if string_is(&record.agents[k].id, id) {
            assert(ai[k as int] == id@);
            return true;
        }
        k = k + 1;
    }
    let mut q: usize = 0;
    while q < record.overlay_agents.len()
        invariant
            q <= record.overlay_agents@.len(),
            oi == overlay_ids(record.overlay_agents@),
            forall|j: int| 0 <= j < q ==> oi[j] != id@,
            !ai.contains(id@),
            ai == agent_ids(record.agents@),
        decreases record.overlay_agents.len() - q,
    {
        if string_is(&record.overlay_agents[q].id, id) {
            assert(oi[q as int] == id@);
            return true;
        }
        q = q + 1;
    }
    false
}

/// Whether `desk` seats `id`.
pub open spec fn seats(desk: DeskSeats, id: Seq<char>) -> bool {
    strings_view(desk.members@).contains(id)
}

} // verus!
