//! Rendering the team section.

use vstd::prelude::*;
use crate::salvage::calls::{known_contains, seqs_view, strings_view};
use crate::team::record::{
    agent_ids, desk_label, desk_label_of, is_roster_agent, on_roster, opt_str, orchestrator_id,
    orchestrator_of, seats, AgentSpec, CompanyRecord, DeskSeats, OverlayAgent,
};
use crate::team::words::{
    w_bring_in, w_bring_in_chars, w_colon, w_colon_chars, w_reach_nobody, w_reach_nobody_chars, w_comma, w_comma_chars, w_intro_alone, w_intro_alone_chars, w_intro_at, w_intro_at_chars, w_intro_count, w_intro_count_chars, w_item_mid, w_item_mid_chars, w_item_open, w_item_open_chars, w_lead_note, w_lead_note_chars, w_list_head, w_list_head_chars, w_nobody_yet, w_nobody_yet_chars, w_orchestrator_note, w_orchestrator_note_chars, w_reach, w_reach_chars, w_sit_head, w_sit_head_chars, w_team_heading, w_team_heading_chars,
};
use crate::text::{
    chars_of, decimal, decimal_chars, eq_ignore_ascii_case, push_all, push_range,
    range_eq_ignore_ascii_case, string_is, string_of, trim, trim_range,
};

verus! {

broadcast use vstd::std_specs::vec::group_vec_axioms;

/// One roster entry as the section renders it: `(id, name, role, mandate)`.
pub type TeammateV = (Seq<char>, Option<Seq<char>>, Seq<char>, Option<Seq<char>>);

/// The manifest roster as teammates.
pub open spec fn manifest_teammates(agents: Seq<AgentSpec>) -> Seq<TeammateV> {
    Seq::new(
        agents.len(),
        |k: int| (agents[k].id@, opt_str(agents[k].name), agents[k].role@, opt_str(agents[k].description)),
    )
}

/// The operator-added teammates from the `k`-th on that have no manifest
/// row among `ids`, appended to `acc`.
pub open spec fn overlay_teammates(overlays: Seq<OverlayAgent>, ids: Seq<Seq<char>>, k: int, acc: Seq<TeammateV>) -> Seq<
    TeammateV,
>
    decreases overlays.len() - k,
{
    if k < 0 || k >= overlays.len() {
        acc
    } else if ids.contains(overlays[k].id@) {
        overlay_teammates(overlays, ids, k + 1, acc)
    } else {
        overlay_teammates(
            overlays,
            ids,
            k + 1,
            acc.push((overlays[k].id@, Some(overlays[k].name@), overlays[k].role@, opt_str(overlays[k].description))),
        )
    }
}

/// Everybody on the roster: first the manifest's agents as declared, then
/// the teammates an operator added.
pub open spec fn roster_of(rec: CompanyRecord) -> Seq<TeammateV> {
    manifest_teammates(rec.agents@) + overlay_teammates(rec.overlay_agents@, agent_ids(rec.agents@), 0, Seq::empty())
}

/// The teammates from the `k`-th on that are not `me`, appended to `acc`.
pub open spec fn others_go(roster: Seq<TeammateV>, me: Seq<char>, k: int, acc: Seq<TeammateV>) -> Seq<TeammateV>
    decreases roster.len() - k,
{
    if k < 0 || k >= roster.len() {
        acc
    } else if roster[k].0 == me {
        others_go(roster, me, k + 1, acc)
    } else {
        others_go(roster, me, k + 1, acc.push(roster[k]))
    }
}

pub open spec fn others_of(roster: Seq<TeammateV>, me: Seq<char>) -> Seq<TeammateV> {
    others_go(roster, me, 0, Seq::empty())
}

/// How a teammate is called: its trimmed name and role, or the role alone
/// when the name is blank or only repeats the role.
pub open spec fn called(t: TeammateV) -> Seq<char> {
    let role = trim(t.2);
    match t.1 {
        Some(n) => if trim(n).len() > 0 && !eq_ignore_ascii_case(trim(n), role) {
            trim(n) + w_comma() + role
        } else {
            role
        },
        None => role,
    }
}

/// A teammate's line: id, how it is called, whether it is the orchestrator,
/// and its mandate when it has one.
pub open spec fn teammate_line(t: TeammateV, orchestrator: Option<Seq<char>>) -> Seq<char> {
    w_item_open() + t.0 + w_item_mid() + called(t) + (if orchestrator == Some(t.0) {
        w_orchestrator_note()
    } else {
        Seq::empty()
    }) + (match t.3 {
        Some(d) => if trim(d).len() > 0 {
            w_colon() + trim(d)
        } else {
            Seq::empty()
        },
        None => Seq::empty(),
    }) + seq!['\n']
}

pub open spec fn teammate_lines(ts: Seq<TeammateV>, orchestrator: Option<Seq<char>>, k: int) -> Seq<char>
    decreases ts.len() - k,
{
    if k < 0 || k >= ts.len() {
        Seq::empty()
    } else {
        teammate_line(ts[k], orchestrator) + teammate_lines(ts, orchestrator, k + 1)
    }
}

/// A desk member as listed: marked when it leads the desk.
pub open spec fn member_text(m: Seq<char>, lead: Option<Seq<char>>) -> Seq<char> {
    if lead == Some(m) {
        m + w_lead_note()
    } else {
        m
    }
}

/// The members from the `k`-th on that are on the roster, as listed.
pub open spec fn members_go(rec: CompanyRecord, ms: Seq<Seq<char>>, lead: Option<Seq<char>>, k: int, acc: Seq<
    Seq<char>,
>) -> Seq<Seq<char>>
    decreases ms.len() - k,
{
    if k < 0 || k >= ms.len() {
        acc
    } else if on_roster(rec, ms[k]) {
        members_go(rec, ms, lead, k + 1, acc.push(member_text(ms[k], lead)))
    } else {
        members_go(rec, ms, lead, k + 1, acc)
    }
}

/// `parts` joined with `, `, from the `k`-th on, after `acc`.
pub open spec fn join_go(parts: Seq<Seq<char>>, k: int, acc: Seq<char>) -> Seq<char>
    decreases parts.len() - k,
{
    if k < 0 || k >= parts.len() {
        acc
    } else if k == 0 {
        join_go(parts, k + 1, acc + parts[k])
    } else {
        join_go(parts, k + 1, acc + w_comma() + parts[k])
    }
}

/// A desk's line: id, name, and its roster members with the lead marked.
pub open spec fn desk_line(rec: CompanyRecord, desk: DeskSeats) -> Seq<char> {
    let listed = members_go(rec, strings_view(desk.members@), opt_str(desk.lead), 0, Seq::empty());
    w_item_open() + desk.id@ + w_item_mid() + desk_label_of(rec, desk.id@) + w_colon() + (if listed.len() == 0 {
        w_nobody_yet()
    } else {
        Seq::empty()
    }) + join_go(listed, 0, Seq::empty()) + seq!['\n']
}

/// The desks from the `k`-th on that seat `me`.
pub open spec fn my_desks(desks: Seq<DeskSeats>, me: Seq<char>, k: int, acc: Seq<DeskSeats>) -> Seq<DeskSeats>
    decreases desks.len() - k,
{
    if k < 0 || k >= desks.len() {
        acc
    } else if seats(desks[k], me) {
        my_desks(desks, me, k + 1, acc.push(desks[k]))
    } else {
        my_desks(desks, me, k + 1, acc)
    }
}

pub open spec fn desk_lines(rec: CompanyRecord, ds: Seq<DeskSeats>, k: int) -> Seq<char>
    decreases ds.len() - k,
{
    if k < 0 || k >= ds.len() {
        Seq::empty()
    } else {
        desk_line(rec, ds[k]) + desk_lines(rec, ds, k + 1)
    }
}

/// The block naming the desks `me` sits on, or nothing when it sits on none.
pub open spec fn desk_block(rec: CompanyRecord, me: Seq<char>) -> Seq<char> {
    let ds = my_desks(rec.desks@, me, 0, Seq::empty());
    if ds.len() == 0 {
        Seq::empty()
    } else {
        w_sit_head() + desk_lines(rec, ds, 0)
    }
}

/// The reach the manifest entry of `me` declares, from the `k`-th agent on:
/// the `delegates_to` of the first agent whose id is `me`; `None` when that
/// entry declares none, or `me` has no manifest entry.
pub open spec fn declared_from(agents: Seq<AgentSpec>, me: Seq<char>, k: int) -> Option<Seq<Seq<char>>>
    decreases agents.len() - k,
{
    if k < 0 || k >= agents.len() {
        None
    } else if agents[k].id@ == me {
        match agents[k].delegates_to {
            Some(v) => Some(strings_view(v@)),
            None => None,
        }
    } else {
        declared_from(agents, me, k + 1)
    }
}

/// The reach `me` declares, if its entry narrows it at all.
pub open spec fn declared_reach(rec: CompanyRecord, me: Seq<char>) -> Option<Seq<Seq<char>>> {
    declared_from(rec.agents@, me, 0)
}

/// Whether one of `desks`, from the `k`-th on, is named in `targets` and
/// seats `t`.
pub open spec fn seated_from(desks: Seq<DeskSeats>, targets: Seq<Seq<char>>, t: Seq<char>, k: int) -> bool
    decreases desks.len() - k,
{
    if k < 0 || k >= desks.len() {
        false
    } else {
        (targets.contains(desks[k].id@) && seats(desks[k], t)) || seated_from(desks, targets, t, k + 1)
    }
}

/// Whether `targets` reaches the teammate `t`: by its own id, or by a desk
/// it sits on.
pub open spec fn reaches(rec: CompanyRecord, targets: Seq<Seq<char>>, t: Seq<char>) -> bool {
    targets.contains(t) || seated_from(rec.desks@, targets, t, 0)
}

/// The ids of the roster teammates from the `k`-th on, other than `me`,
/// that `targets` reaches, appended to `acc`.
pub open spec fn targets_go(
    roster: Seq<TeammateV>,
    rec: CompanyRecord,
    me: Seq<char>,
    targets: Seq<Seq<char>>,
    k: int,
    acc: Seq<Seq<char>>,
) -> Seq<Seq<char>>
    decreases roster.len() - k,
{
    if k < 0 || k >= roster.len() {
        acc
    } else if roster[k].0 != me && reaches(rec, targets, roster[k].0) {
        targets_go(roster, rec, me, targets, k + 1, acc.push(roster[k].0))
    } else {
        targets_go(roster, rec, me, targets, k + 1, acc)
    }
}

/// The teammates `me` may bring in under the reach `targets`, in roster
/// order: every other roster teammate named there or seated at a desk named
/// there.
pub open spec fn targets_of(rec: CompanyRecord, me: Seq<char>, targets: Seq<Seq<char>>) -> Seq<Seq<char>> {
    targets_go(roster_of(rec), rec, me, targets, 0, Seq::empty())
}

/// Each id in backticks.
pub open spec fn quoted(ids: Seq<Seq<char>>) -> Seq<Seq<char>> {
    Seq::new(ids.len(), |i: int| seq!['`'] + ids[i] + seq!['`'])
}

/// The closing line for a narrowed reach: nothing when `me` declares no
/// reach or its reach takes in every other teammate; otherwise the
/// teammates it may bring in, or that it may bring in nobody.
pub open spec fn reach_line(rec: CompanyRecord, me: Seq<char>) -> Seq<char> {
    match declared_reach(rec, me) {
        None => Seq::empty(),
        Some(targets) => {
            let allowed = targets_of(rec, me, targets);
            if allowed.len() == others_of(roster_of(rec), me).len() {
                Seq::empty()
            } else if allowed.len() == 0 {
                w_reach_nobody() + seq!['\n']
            } else {
                w_bring_in() + join_go(quoted(allowed), 0, Seq::empty()) + seq!['.', '\n']
            }
        },
    }
}

/// The team section for `me`: empty when nobody else is on the roster;
/// otherwise the heading, the head count and company, the standing line
/// that every teammate can be brought in, every other teammate's line, the
/// desks `me` sits on, and, when its reach is narrower than the roster, who
/// it may bring in.
pub open spec fn team_text(rec: CompanyRecord, me: Seq<char>) -> Seq<char> {
    let roster = roster_of(rec);
    let others = others_of(roster, me);
    if others.len() == 0 {
        Seq::empty()
    } else {
        seq!['\n', '\n'] + w_team_heading() + w_intro_count() + decimal(roster.len()) + w_intro_at() + trim(
            rec.company_name@,
        ) + w_intro_alone() + w_reach() + w_list_head() + teammate_lines(others, orchestrator_of(rec.agents@), 0)
            + desk_block(rec, me) + reach_line(rec, me)
    }
}

// ------------------------------------------------------------------ exec

/// A teammate held by value: `(id, name, role, mandate)`.
struct Teammate {
    id: Vec<char>,
    name: Option<Vec<char>>,
    role: Vec<char>,
    description: Option<Vec<char>>,
}

spec fn opt_chars(o: Option<Vec<char>>) -> Option<Seq<char>> {
    match o {
        Some(v) => Some(v@),
        None => None,
    }
}

spec fn mate_view(t: Teammate) -> TeammateV {
    (t.id@, opt_chars(t.name), t.role@, opt_chars(t.description))
}

spec fn mates_view(v: Seq<Teammate>) -> Seq<TeammateV> {
    Seq::new(v.len(), |k: int| mate_view(v[k]))
}

fn opt_chars_of(o: &Option<String>) -> (r: Option<Vec<char>>)
    ensures
        opt_chars(r) == opt_str(*o),
{
    match o {
        Some(s) => Some(chars_of(s.as_str())),
        None => None,
    }
}

fn push_mate(v: &mut Vec<Teammate>, t: Teammate)
    ensures
        mates_view(final(v)@) == mates_view(old(v)@).push(mate_view(t)),
{
    let ghost tv = mate_view(t);
    v.push(t);
    assert(mates_view(v@) =~= mates_view(old(v)@).push(tv));
}

fn roster(record: &CompanyRecord) -> (r: Vec<Teammate>)
    ensures
        mates_view(r@) == roster_of(*record),
{
    let mut out: Vec<Teammate> = Vec::new();
    let ghost agents = record.agents@;
    let mut k: usize = 0;
    while k < record.agents.len()
        invariant
            k <= record.agents@.len(),
            agents == record.agents@,
            mates_view(out@) == manifest_teammates(agents).take(k as int),
        decreases record.agents.len() - k,
    {
        let a = &record.agents[k];
        let t = Teammate {
            id: chars_of(a.id.as_str()),
            name: opt_chars_of(&a.name),
            role: chars_of(a.role.as_str()),
            description: opt_chars_of(&a.description),
        };
        push_mate(&mut out, t);
        assert(manifest_teammates(agents).take(k + 1) =~= manifest_teammates(agents).take(k as int).push(
            manifest_teammates(agents)[k as int],
        ));
        k = k + 1;
    }
    assert(manifest_teammates(agents).take(k as int) =~= manifest_teammates(agents));
    let ghost head = mates_view(out@);
    let ghost ids = agent_ids(agents);
    let ghost overlays = record.overlay_agents@;
    let mut q: usize = 0;
    assert(mates_view(out@).skip(head.len() as int) =~= Seq::<TeammateV>::empty());
    assert(mates_view(out@).take(head.len() as int) =~= head);
    while q < record.overlay_agents.len()
        invariant
            q <= overlays.len(),
            overlays == record.overlay_agents@,
            agents == record.agents@,
            ids == agent_ids(agents),
            head == manifest_teammates(agents),
            mates_view(out@).len() >= head.len(),
            mates_view(out@).take(head.len() as int) == head,
            overlay_teammates(overlays, ids, 0, Seq::empty()) == overlay_teammates(
                overlays,
                ids,
                q as int,
                mates_view(out@).skip(head.len() as int),
            ),
        decreases record.overlay_agents.len() - q,
    {
        let o = &record.overlay_agents[q];
        let oid = chars_of(o.id.as_str());
        let mut listed = false;
        let mut j: usize = 0;
        while j < record.agents.len()
            invariant
                j <= record.agents@.len(),
                agents == record.agents@,
                ids == agent_ids(agents),
                listed == (exists|i: int| 0 <= i < j && ids[i] == oid@),
            decreases record.agents.len() - j,
        {
            if crate::text::string_is(&record.agents[j].id, oid.as_slice()) {
                assert(ids[j as int] == oid@);
                listed = true;
            }
            j = j + 1;
        }
        proof {
            if listed {
                let i = choose|i: int| 0 <= i < j && ids[i] == oid@;
                assert(ids.contains(oid@));
            } else {
                assert(!ids.contains(oid@));
            }
        }
        if !listed {
            let ghost before = mates_view(out@);
            let t = Teammate {
                id: oid,
                name: Some(chars_of(o.name.as_str())),
                role: chars_of(o.role.as_str()),
                description: opt_chars_of(&o.description),
            };
            push_mate(&mut out, t);
            assert(mates_view(out@).take(head.len() as int) =~= before.take(head.len() as int));
            assert(mates_view(out@).skip(head.len() as int) =~= before.skip(head.len() as int).push(
                mates_view(out@)[mates_view(out@).len() - 1],
            ));
        }
        q = q + 1;
    }
    assert(mates_view(out@) =~= head + mates_view(out@).skip(head.len() as int));
    out
}

fn push_piece(out: &mut Vec<char>, piece: Vec<char>)
    ensures
        final(out)@ == old(out)@ + piece@,
{
    push_all(out, piece.as_slice());
}

/// The trimmed `v`.
fn trimmed(v: &[char]) -> (r: Vec<char>)
    ensures
        r@ == trim(v@),
{
    let (a, b) = trim_range(v, 0, v.len());
    assert(v@.subrange(0, v@.len() as int) =~= v@);
    let mut r: Vec<char> = Vec::new();
    push_range(&mut r, v, a, b);
    assert(r@ =~= v@.subrange(a as int, b as int));
    r
}

#[verifier::rlimit(40)]
fn teammate_line_exec(out: &mut Vec<char>, t: &Teammate, orchestrator: &Option<Vec<char>>)
    ensures
        final(out)@ == old(out)@ + teammate_line(mate_view(*t), opt_chars(*orchestrator)),
{
    push_piece(out, w_item_open_chars());
    push_all(out, t.id.as_slice());
    push_piece(out, w_item_mid_chars());
    let role = trimmed(t.role.as_slice());
    let ghost before_called = out@;
    match &t.name {
        Some(n) => {
            let nm = trimmed(n.as_slice());
            if nm.len() > 0 && !range_eq_ignore_ascii_case(nm.as_slice(), 0, nm.len(), role.as_slice()) {
                assert(nm@.subrange(0, nm@.len() as int) =~= nm@);
                push_all(out, nm.as_slice());
                push_piece(out, w_comma_chars());
                push_all(out, role.as_slice());
            } else {
                assert(nm@.subrange(0, nm@.len() as int) =~= nm@);
                push_all(out, role.as_slice());
            }
        },
        None => {
            push_all(out, role.as_slice());
        },
    }
    assert(out@ =~= before_called + called(mate_view(*t)));
    let is_orch = match orchestrator {
        Some(o) => crate::text::chars_eq(o.as_slice(), t.id.as_slice()),
        None => false,
    };
    let ghost before_note = out@;
    if is_orch {
        push_piece(out, w_orchestrator_note_chars());
    }
    let ghost before_desc = out@;
    match &t.description {
        Some(d) => {
            let dt = trimmed(d.as_slice());
            if dt.len() > 0 {
                push_piece(out, w_colon_chars());
                push_all(out, dt.as_slice());
            }
        },
        None => {},
    }
    let ghost before_nl = out@;
    out.push('\n');
    proof {
        let tv = mate_view(*t);
        let oc = opt_chars(*orchestrator);
        let note = if oc == Some(tv.0) {
            w_orchestrator_note()
        } else {
            Seq::<char>::empty()
        };
        assert(before_desc =~= before_note + note);
        assert(out@ =~= old(out)@ + teammate_line(tv, oc));
    }
}

fn member_line_exec(out: &mut Vec<char>, record: &CompanyRecord, desk: &DeskSeats)
    ensures
        final(out)@ == old(out)@ + desk_line(*record, *desk),
{
    let lead = opt_chars_of(&desk.lead);
    let ghost ms = strings_view(desk.members@);
    let ghost lv = opt_str(desk.lead);
    let mut listed: Vec<Vec<char>> = Vec::new();
    let mut k: usize = 0;
    assert(Seq::new(listed@.len(), |i: int| listed@[i]@) =~= Seq::<Seq<char>>::empty());
    while k < desk.members.len()
        invariant
            k <= desk.members@.len(),
            ms == strings_view(desk.members@),
            opt_chars(lead) == lv,
            lv == opt_str(desk.lead),
            members_go(*record, ms, lv, 0, Seq::empty()) == members_go(
                *record,
                ms,
                lv,
                k as int,
                Seq::new(listed@.len(), |i: int| listed@[i]@),
            ),
        decreases desk.members.len() - k,
    {
        let m = chars_of(desk.members[k].as_str());
        if is_roster_agent(record, m.as_slice()) {
            let ghost before = Seq::new(listed@.len(), |i: int| listed@[i]@);
            let is_lead = match &lead {
                Some(l) => crate::text::chars_eq(l.as_slice(), m.as_slice()),
                None => false,
            };
            let mut text = m;
            if is_lead {
                push_piece(&mut text, w_lead_note_chars());
            }
            let ghost tv = text@;
            listed.push(text);
            assert(Seq::new(listed@.len(), |i: int| listed@[i]@) =~= before.push(tv));
        }
        k = k + 1;
    }
    let ghost lsv = Seq::new(listed@.len(), |i: int| listed@[i]@);
    push_piece(out, w_item_open_chars());
    let id = chars_of(desk.id.as_str());
    push_all(out, id.as_slice());
    push_piece(out, w_item_mid_chars());
    let label = desk_label(record, id.as_slice());
    push_all(out, label.as_slice());
    push_piece(out, w_colon_chars());
    let ghost before_nobody = out@;
    if listed.len() == 0 {
        push_piece(out, w_nobody_yet_chars());
    }
    let ghost before_join = out@;
    let mut j: usize = 0;
    assert(out@ =~= before_join + join_go(lsv, 0, Seq::empty()).subrange(0, 0));
    while j < listed.len()
        invariant
            j <= listed@.len(),
            lsv == Seq::new(listed@.len(), |i: int| listed@[i]@),
            join_go(lsv, 0, Seq::empty()) == join_go(lsv, j as int, out@.skip(before_join.len() as int)),
            out@.len() >= before_join.len(),
            out@.take(before_join.len() as int) == before_join,
        decreases listed.len() - j,
    {
        let ghost prev = out@;
        if j > 0 {
            push_piece(out, w_comma_chars());
        }
        push_all(out, listed[j].as_slice());
        proof {
            assert(out@.take(before_join.len() as int) =~= before_join);
            if j > 0 {
                assert(out@.skip(before_join.len() as int) =~= prev.skip(before_join.len() as int) + w_comma()
                    + lsv[j as int]);
            } else {
                assert(out@.skip(before_join.len() as int) =~= prev.skip(before_join.len() as int)
                    + lsv[j as int]);
            }
        }
        j = j + 1;
    }
    let ghost joined = out@.skip(before_join.len() as int);
    assert(out@ =~= before_join + joined);
    out.push('\n');
    proof {
        assert(out@ =~= old(out)@ + desk_line(*record, *desk));
    }
}

fn declared_reach_exec<'a>(record: &'a CompanyRecord, me: &[char]) -> (r: Option<&'a Vec<String>>)
    ensures
        (match r {
            Some(v) => Some(strings_view(v@)),
            None => None::<Seq<Seq<char>>>,
        }) == declared_reach(*record, me@),
{
    let mut k: usize = 0;
    while k < record.agents.len()
        invariant
            k <= record.agents@.len(),
            declared_from(record.agents@, me@, 0) == declared_from(record.agents@, me@, k as int),
        decreases record.agents.len() - k,
    {
        if string_is(&record.agents[k].id, me) {
            return match &record.agents[k].delegates_to {
                Some(v) => Some(v),
                None => None,
            };
        }
        k = k + 1;
    }
    None
}

fn reaches_exec(record: &CompanyRecord, targets: &[String], t: &[char]) -> (r: bool)
    ensures
        r == reaches(*record, strings_view(targets@), t@),
{
    if known_contains(targets, t) {
        return true;
    }
    let ghost ts = strings_view(targets@);
    let mut k: usize = 0;
    while k < record.desks.len()
        invariant
            k <= record.desks@.len(),
            ts == strings_view(targets@),
            !ts.contains(t@),
            seated_from(record.desks@, ts, t@, 0) == seated_from(record.desks@, ts, t@, k as int),
        decreases record.desks.len() - k,
    {
        let d = &record.desks[k];
        let dc = chars_of(d.id.as_str());
        if known_contains(targets, dc.as_slice()) && known_contains(&d.members, t) {
            return true;
        }
        k = k + 1;
    }
    false
}

fn targets_in(all: &Vec<Teammate>, record: &CompanyRecord, me: &[char], targets: &[String]) -> (r: Vec<Vec<char>>)
    requires
        mates_view(all@) == roster_of(*record),
    ensures
        seqs_view(r@) == targets_of(*record, me@, strings_view(targets@)),
{
    let ghost rv = roster_of(*record);
    let ghost ts = strings_view(targets@);
    let mut r: Vec<Vec<char>> = Vec::new();
    let mut k: usize = 0;
    assert(seqs_view(r@) =~= Seq::<Seq<char>>::empty());
    while k < all.len()
        invariant
            k <= all@.len(),
            mates_view(all@) == rv,
            rv == roster_of(*record),
            ts == strings_view(targets@),
            targets_of(*record, me@, ts) == targets_go(rv, *record, me@, ts, k as int, seqs_view(r@)),
        decreases all.len() - k,
    {
        let id = &all[k].id;
        proof {
            assert(mates_view(all@)[k as int] == mate_view(all@[k as int]));
            assert(id@ == rv[k as int].0);
        }
        if !crate::text::chars_eq(id.as_slice(), me) && reaches_exec(record, targets, id.as_slice()) {
            let ghost before = seqs_view(r@);
            let mut c: Vec<char> = Vec::new();
            push_all(&mut c, id.as_slice());
            r.push(c);
            assert(seqs_view(r@) =~= before.push(rv[k as int].0));
        }
        k = k + 1;
    }
    r
}

/// The teammates `agent_id` may bring in under the reach `delegates_to`:
/// every other roster teammate, in roster order, that `delegates_to` names
/// or that sits at a desk it names.
pub fn teammate_targets(record: &CompanyRecord, agent_id: &str, delegates_to: &[String]) -> (r: Vec<String>)
    ensures
        strings_view(r@) == targets_of(*record, agent_id@, strings_view(delegates_to@)),
{
    let me = chars_of(agent_id);
    let all = roster(record);
    let ids = targets_in(&all, record, me.as_slice(), delegates_to);
    let mut r: Vec<String> = Vec::new();
    let mut k: usize = 0;
    while k < ids.len()
        invariant
            k <= ids@.len(),
            strings_view(r@) == seqs_view(ids@).take(k as int),
        decreases ids.len() - k,
    {
        let ghost before = strings_view(r@);
        r.push(string_of(ids[k].as_slice()));
        assert(strings_view(r@) =~= before.push(ids@[k as int]@));
        assert(seqs_view(ids@).take(k + 1) =~= seqs_view(ids@).take(k as int).push(ids@[k as int]@));
        k = k + 1;
    }
    assert(seqs_view(ids@).take(k as int) =~= seqs_view(ids@));
    r
}

fn push_quoted_list(out: &mut Vec<char>, ids: &Vec<Vec<char>>)
    ensures
        final(out)@ == old(out)@ + join_go(quoted(seqs_view(ids@)), 0, Seq::empty()),
{
    let ghost q = quoted(seqs_view(ids@));
    let ghost head = out@;
    let mut j: usize = 0;
    assert(out@.skip(head.len() as int) =~= Seq::<char>::empty());
    while j < ids.len()
        invariant
            j <= ids@.len(),
            q == quoted(seqs_view(ids@)),
            out@.len() >= head.len(),
            out@.take(head.len() as int) == head,
            head == old(out)@,
            join_go(q, 0, Seq::empty()) == join_go(q, j as int, out@.skip(head.len() as int)),
        decreases ids.len() - j,
    {
        let ghost prev = out@;
        if j > 0 {
            push_piece(out, w_comma_chars());
        }
        out.push('`');
        push_all(out, ids[j].as_slice());
        out.push('`');
        proof {
            assert(q[j as int] == seq!['`'] + ids@[j as int]@ + seq!['`']);
            assert(out@.take(head.len() as int) =~= head);
            if j > 0 {
                assert(out@.skip(head.len() as int) =~= prev.skip(head.len() as int) + w_comma() + q[j as int]);
            } else {
                assert(out@.skip(head.len() as int) =~= prev.skip(head.len() as int) + q[j as int]);
            }
        }
        j = j + 1;
    }
    assert(out@ =~= head + out@.skip(head.len() as int));
}

/// The team section written for `agent_id`: empty when nobody else is on
/// the roster; otherwise a line for each other teammate, in roster order,
/// followed by the desks `agent_id` belongs to and, when its declared reach
/// leaves some teammate out, the teammates [`teammate_targets`] would
/// accept.
pub fn team_section(record: &CompanyRecord, agent_id: &str) -> (r: String)
    ensures
        r@ == team_text(*record, agent_id@),
{
    let me = chars_of(agent_id);
    let all = roster(record);
    let ghost rv = roster_of(*record);
    let mut others: Vec<usize> = Vec::new();
    let mut k: usize = 0;
    assert(Seq::new(others@.len(), |i: int| rv[others@[i] as int]) =~= Seq::<TeammateV>::empty());
    while k < all.len()
        invariant
            k <= all@.len(),
            mates_view(all@) == rv,
            forall|i: int| 0 <= i < others@.len() ==> (#[trigger] others@[i]) < all@.len(),
            others_of(rv, me@) == others_go(
                rv,
                me@,
                k as int,
                Seq::new(others@.len(), |i: int| rv[others@[i] as int]),
            ),
        decreases all.len() - k,
    {
        let ghost before = Seq::new(others@.len(), |i: int| rv[others@[i] as int]);
        if !crate::text::chars_eq(all[k].id.as_slice(), me.as_slice()) {
            others.push(k);
            assert(Seq::new(others@.len(), |i: int| rv[others@[i] as int]) =~= before.push(rv[k as int]));
        }
        k = k + 1;
    }
    let ghost ov = Seq::new(others@.len(), |i: int| rv[others@[i] as int]);
    if others.len() == 0 {
        return String::new();
    }
    let orch = match orchestrator_id(record.agents.as_slice()) {
        Some(o) => Some(chars_of(o.as_str())),
        None => None,
    };
    let mut out: Vec<char> = Vec::new();
    out.push('\n');
    out.push('\n');
    push_piece(&mut out, w_team_heading_chars());
    push_piece(&mut out, w_intro_count_chars());
    push_piece(&mut out, decimal_chars(all.len() as u64));
    push_piece(&mut out, w_intro_at_chars());
    let company = chars_of(record.company_name.as_str());
    push_piece(&mut out, trimmed(company.as_slice()));
    push_piece(&mut out, w_intro_alone_chars());
    push_piece(&mut out, w_reach_chars());
    push_piece(&mut out, w_list_head_chars());
    let ghost head = out@;
    let mut j: usize = 0;
    while j < others.len()
        invariant
            j <= others@.len(),
            ov == Seq::new(others@.len(), |i: int| rv[others@[i] as int]),
            mates_view(all@) == rv,
            forall|i: int| 0 <= i < others@.len() ==> (#[trigger] others@[i]) < all@.len(),
            opt_chars(orch) == orchestrator_of(record.agents@),
            out@ == head + teammate_lines(ov, orchestrator_of(record.agents@), 0).take(
                (teammate_lines(ov, orchestrator_of(record.agents@), 0).len() - teammate_lines(
                    ov,
                    orchestrator_of(record.agents@),
                    j as int,
                ).len()) as int,
            ),
            teammate_lines(ov, orchestrator_of(record.agents@), 0) == teammate_lines(
                ov,
                orchestrator_of(record.agents@),
                0,
            ).take(
                (teammate_lines(ov, orchestrator_of(record.agents@), 0).len() - teammate_lines(
                    ov,
                    orchestrator_of(record.agents@),
                    j as int,
                ).len()) as int,
            ) + teammate_lines(ov, orchestrator_of(record.agents@), j as int),
        decreases others.len() - j,
    {
        let ghost o = orchestrator_of(record.agents@);
        let ghost all_lines = teammate_lines(ov, o, 0);
        let ghost rest = teammate_lines(ov, o, j as int);
        let ghost done = all_lines.take((all_lines.len() - rest.len()) as int);
        let t = &all[others[j]];
        proof {
            assert(mate_view(*t) == ov[j as int]);
            assert(rest == teammate_line(ov[j as int], o) + teammate_lines(ov, o, j + 1));
        }
        teammate_line_exec(&mut out, t, &orch);
        proof {
            let line = teammate_line(ov[j as int], o);
            let rest2 = teammate_lines(ov, o, j + 1);
            assert(all_lines == done + line + rest2);
            assert(all_lines.take((all_lines.len() - rest2.len()) as int) =~= done + line);
            assert(all_lines =~= all_lines.take((all_lines.len() - rest2.len()) as int) + rest2);
        }
        j = j + 1;
    }
    proof {
        let o = orchestrator_of(record.agents@);
        let all_lines = teammate_lines(ov, o, 0);
        assert(teammate_lines(ov, o, j as int).len() == 0);
        assert(all_lines.take(all_lines.len() as int) =~= all_lines);
    }
    // The desks this agent sits on.
    let ghost desks = record.desks@;
    let mut mine: Vec<usize> = Vec::new();
    let mut d: usize = 0;
    assert(Seq::new(mine@.len(), |i: int| desks[mine@[i] as int]) =~= Seq::<DeskSeats>::empty());
    while d < record.desks.len()
        invariant
            d <= desks.len(),
            desks == record.desks@,
            forall|i: int| 0 <= i < mine@.len() ==> (#[trigger] mine@[i]) < desks.len(),
            my_desks(desks, me@, 0, Seq::empty()) == my_desks(
                desks,
                me@,
                d as int,
                Seq::new(mine@.len(), |i: int| desks[mine@[i] as int]),
            ),
        decreases record.desks.len() - d,
    {
        let ghost before = Seq::new(mine@.len(), |i: int| desks[mine@[i] as int]);
        if known_contains(&record.desks[d].members, me.as_slice()) {
            mine.push(d);
            assert(Seq::new(mine@.len(), |i: int| desks[mine@[i] as int]) =~= before.push(desks[d as int]));
        }
        d = d + 1;
    }
    let ghost ds = Seq::new(mine@.len(), |i: int| desks[mine@[i] as int]);
    let ghost before_block = out@;
    if mine.len() > 0 {
        push_piece(&mut out, w_sit_head_chars());
        let ghost after_head = out@;
        let mut e: usize = 0;
        while e < mine.len()
            invariant
                e <= mine@.len(),
                desks == record.desks@,
                ds == Seq::new(mine@.len(), |i: int| desks[mine@[i] as int]),
                forall|i: int| 0 <= i < mine@.len() ==> (#[trigger] mine@[i]) < desks.len(),
                out@ == after_head + desk_lines(*record, ds, 0).take(
                    (desk_lines(*record, ds, 0).len() - desk_lines(*record, ds, e as int).len()) as int,
                ),
                desk_lines(*record, ds, 0) == desk_lines(*record, ds, 0).take(
                    (desk_lines(*record, ds, 0).len() - desk_lines(*record, ds, e as int).len()) as int,
                ) + desk_lines(*record, ds, e as int),
            decreases mine.len() - e,
        {
            let ghost all_lines = desk_lines(*record, ds, 0);
            let ghost rest = desk_lines(*record, ds, e as int);
            let ghost done = all_lines.take((all_lines.len() - rest.len()) as int);
            let desk = &record.desks[mine[e]];
            proof {
                assert(*desk == ds[e as int]);
                assert(rest == desk_line(*record, ds[e as int]) + desk_lines(*record, ds, e + 1));
            }
            member_line_exec(&mut out, record, desk);
            proof {
                let line = desk_line(*record, ds[e as int]);
                let rest2 = desk_lines(*record, ds, e + 1);
                assert(all_lines == done + line + rest2);
                assert(all_lines.take((all_lines.len() - rest2.len()) as int) =~= done + line);
                assert(all_lines =~= all_lines.take((all_lines.len() - rest2.len()) as int) + rest2);
            }
            e = e + 1;
        }
        proof {
            let all_lines = desk_lines(*record, ds, 0);
            assert(desk_lines(*record, ds, e as int).len() == 0);
            assert(all_lines.take(all_lines.len() as int) =~= all_lines);
        }
    }
    // Who a narrowed reach may bring in.
    let ghost before_reach = out@;
    match declared_reach_exec(record, me.as_slice()) {
        None => {},
        Some(targets) => {
            let allowed = targets_in(&all, record, me.as_slice(), targets.as_slice());
            if allowed.len() == others.len() {
            } else if allowed.len() == 0 {
                push_piece(&mut out, w_reach_nobody_chars());
                out.push('\n');
            } else {
                push_piece(&mut out, w_bring_in_chars());
                push_quoted_list(&mut out, &allowed);
                out.push('.');
                out.push('\n');
            }
        },
    }
    proof {
        assert(out@ =~= before_reach + reach_line(*record, agent_id@));
        assert(out@ =~= team_text(*record, agent_id@));
    }
    string_of(out.as_slice())
}

// ---------------------------------------------------------------- laws

proof fn lemma_others_go(roster: Seq<TeammateV>, me: Seq<char>, k: int, acc: Seq<TeammateV>)
    requires
        0 <= k <= roster.len(),
    ensures
        forall|t: TeammateV|
            #[trigger] others_go(roster, me, k, acc).contains(t) <==> (acc.contains(t) || (t.0 != me
                && roster.subrange(k, roster.len() as int).contains(t))),
    decreases roster.len() - k,
{
    let r = others_go(roster, me, k, acc);
    if k < roster.len() {
        let acc2 = if roster[k].0 == me {
            acc
        } else {
            acc.push(roster[k])
        };
        lemma_others_go(roster, me, k + 1, acc2);
        assert(r == others_go(roster, me, k + 1, acc2));
        assert forall|t: TeammateV| #[trigger] r.contains(t) <==> (acc.contains(t) || (t.0 != me
            && roster.subrange(k, roster.len() as int).contains(t))) by {
            let tail = roster.subrange(k, roster.len() as int);
            let tail2 = roster.subrange(k + 1, roster.len() as int);
            assert(tail =~= seq![roster[k]] + tail2);
            if tail.contains(t) {
                let w = choose|w: int| 0 <= w < tail.len() && tail[w] == t;
                if w > 0 {
                    assert(tail2[w - 1] == t);
                }
            }
            if tail2.contains(t) {
                let w = choose|w: int| 0 <= w < tail2.len() && tail2[w] == t;
                assert(tail[w + 1] == t);
            }
            if acc2.contains(t) && roster[k].0 != me {
                let w = choose|w: int| 0 <= w < acc2.len() && acc2[w] == t;
                if w < acc.len() {
                    assert(acc[w] == t);
                } else {
                    assert(tail[0] == t);
                }
            }
            if acc.contains(t) && roster[k].0 != me {
                let w = choose|w: int| 0 <= w < acc.len() && acc[w] == t;
                assert(acc2[w] == t);
            }
            if t == roster[k] && t.0 != me {
                assert(acc2[acc.len() as int] == t);
            }
        }
    } else {
        assert(r == acc);
        assert forall|t: TeammateV| #[trigger] r.contains(t) <==> (acc.contains(t) || (t.0 != me
            && roster.subrange(k, roster.len() as int).contains(t))) by {
            assert(roster.subrange(k, roster.len() as int).len() == 0);
        }
    }
}

/// The section lists exactly the roster's other teammates: never the agent
/// it is written for, and nobody else left out. It is empty exactly when
/// there is nobody else, and otherwise gives the whole roster's head count.
pub proof fn lemma_section_lists_the_others(rec: CompanyRecord, me: Seq<char>)
    ensures
        forall|t: TeammateV|
            #[trigger] others_of(roster_of(rec), me).contains(t) <==> (roster_of(rec).contains(t) && t.0
                != me),
        team_text(rec, me).len() == 0 <==> others_of(roster_of(rec), me).len() == 0,
        others_of(roster_of(rec), me).len() > 0 ==> team_text(rec, me).subrange(
            0,
            (2 + w_team_heading().len() + w_intro_count().len() + decimal(roster_of(rec).len()).len()) as int,
        ) == seq!['\n', '\n'] + w_team_heading() + w_intro_count() + decimal(roster_of(rec).len()),
{
    let roster = roster_of(rec);
    lemma_others_go(roster, me, 0, Seq::empty());
    assert(roster.subrange(0, roster.len() as int) =~= roster);
    let others = others_of(roster, me);
    if others.len() > 0 {
        let head = seq!['\n', '\n'] + w_team_heading() + w_intro_count() + decimal(roster.len());
        let text = team_text(rec, me);
        reveal_strlit("## Your team");
        assert(text.len() > 0);
        assert(text.subrange(0, head.len() as int) =~= head);
    } else {
        assert(team_text(rec, me).len() == 0);
    }
}

proof fn lemma_targets_go(
    roster: Seq<TeammateV>,
    rec: CompanyRecord,
    me: Seq<char>,
    ts: Seq<Seq<char>>,
    k: int,
    acc: Seq<Seq<char>>,
)
    requires
        0 <= k <= roster.len(),
    ensures
        forall|x: Seq<char>|
            #[trigger] targets_go(roster, rec, me, ts, k, acc).contains(x) <==> (acc.contains(x) || (x != me
                && reaches(rec, ts, x) && exists|i: int| k <= i < roster.len() && roster[i].0 == x)),
    decreases roster.len() - k,
{
    if k < roster.len() {
        let take = roster[k].0 != me && reaches(rec, ts, roster[k].0);
        let acc2 = if take {
            acc.push(roster[k].0)
        } else {
            acc
        };
        lemma_targets_go(roster, rec, me, ts, k + 1, acc2);
        assert forall|x: Seq<char>| #[trigger] targets_go(roster, rec, me, ts, k, acc).contains(x) <==> (acc.contains(
            x,
        ) || (x != me && reaches(rec, ts, x) && exists|i: int| k <= i < roster.len() && roster[i].0 == x)) by {
            if acc2.contains(x) && take {
                let w = choose|w: int| 0 <= w < acc2.len() && acc2[w] == x;
                if w < acc.len() {
                    assert(acc[w] == x);
                }
            }
            if acc.contains(x) && take {
                let w = choose|w: int| 0 <= w < acc.len() && acc[w] == x;
                assert(acc2[w] == x);
            }
            assert(targets_go(roster, rec, me, ts, k, acc) == targets_go(roster, rec, me, ts, k + 1, acc2));
            if x != me && reaches(rec, ts, x) && exists|i: int| k <= i < roster.len() && roster[i].0 == x {
                let i = choose|i: int| k <= i < roster.len() && roster[i].0 == x;
                if i == k {
                    assert(acc2[acc.len() as int] == x);
                } else {
                    assert(k + 1 <= i < roster.len() && roster[i].0 == x);
                }
            }
            if exists|i: int| k + 1 <= i < roster.len() && roster[i].0 == x {
                let i = choose|i: int| k + 1 <= i < roster.len() && roster[i].0 == x;
                assert(k <= i < roster.len() && roster[i].0 == x);
            }
            if !take && acc2.contains(x) {
                assert(acc.contains(x));
            }
        }
    }
}

proof fn lemma_targets_count(
    roster: Seq<TeammateV>,
    rec: CompanyRecord,
    me: Seq<char>,
    ts: Seq<Seq<char>>,
    k: int,
    a: Seq<Seq<char>>,
    b: Seq<TeammateV>,
)
    requires
        0 <= k <= roster.len(),
    ensures
        targets_go(roster, rec, me, ts, k, a).len() - a.len() <= others_go(roster, me, k, b).len() - b.len(),
        (targets_go(roster, rec, me, ts, k, a).len() - a.len() == others_go(roster, me, k, b).len() - b.len())
            <==> (forall|i: int| k <= i < roster.len() && roster[i].0 != me ==> reaches(rec, ts, roster[i].0)),
    decreases roster.len() - k,
{
    if k < roster.len() {
        let a2 = if roster[k].0 != me && reaches(rec, ts, roster[k].0) {
            a.push(roster[k].0)
        } else {
            a
        };
        let b2 = if roster[k].0 == me {
            b
        } else {
            b.push(roster[k])
        };
        lemma_targets_count(roster, rec, me, ts, k + 1, a2, b2);
        if !(forall|i: int| k <= i < roster.len() && roster[i].0 != me ==> reaches(rec, ts, roster[i].0)) {
            let i = choose|i: int| !(k <= i < roster.len() && roster[i].0 != me ==> reaches(rec, ts, roster[i].0));
            if i > k {
                assert(!(k + 1 <= i < roster.len() && roster[i].0 != me ==> reaches(rec, ts, roster[i].0)));
            }
        }
    }
}

/// The reach line names exactly the teammates a narrowed reach lets `me`
/// bring in: every other roster teammate that the declared reach names or
/// seats at a desk it names, and nobody else. The line is written exactly
/// when `me` declares a reach and some other roster teammate is outside it.
pub proof fn lemma_reach_line_names_the_accepted(rec: CompanyRecord, me: Seq<char>)
    ensures
        declared_reach(rec, me) matches Some(ts) ==> forall|x: Seq<char>|
            #[trigger] targets_of(rec, me, ts).contains(x) <==> (x != me && reaches(rec, ts, x) && exists|i: int|
                0 <= i < roster_of(rec).len() && roster_of(rec)[i].0 == x),
        reach_line(rec, me).len() > 0 <==> (declared_reach(rec, me) matches Some(ts) && exists|i: int|
            0 <= i < roster_of(rec).len() && roster_of(rec)[i].0 != me && !reaches(rec, ts, roster_of(rec)[i].0)),
{
    let roster = roster_of(rec);
    if let Some(ts) = declared_reach(rec, me) {
        lemma_targets_go(roster, rec, me, ts, 0, Seq::empty());
        lemma_targets_count(roster, rec, me, ts, 0, Seq::empty(), Seq::empty());
    }
}

} // verus!
