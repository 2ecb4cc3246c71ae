//! Passing an operator conversation to another teammate.
//!
//! The `hand_off` tool names who takes over; the handing agent is then done,
//! and the one named continues with the operator on its own. This module
//! holds the rules the tool decides by: who may be handed to and what
//! a refused caller is told, what the receiving teammate is opened with,
//! what the tool reads from its arguments, and when a hand-over room that
//! ended in an error is worth reporting.

pub mod flow;
pub mod words;

use vstd::prelude::*;
use crate::json::{
    Json, JsonV, elems_view, get_member, jview, lemma_array_view, lemma_object_view, member, pairs_view,
};
use crate::salvage::calls::{known_contains, strings_view};
use crate::tools::PermissionLevel;
use crate::order::{chars_seqs, lemma_sort_names_members, sort_names, sorted_names};
use crate::text::{
    chars_of, find_from, find_in, lemma_find_in_bounds, push_all, push_range, string_of, trim,
    trim_range,
};
use crate::handoff::words::{
    w_ask_for_name, w_ask_for_name_chars, w_brief, w_brief_after_from, w_brief_after_from_chars, w_brief_chars,
    w_brief_open, w_brief_open_chars, w_brief_rest, w_brief_rest_chars, w_delivered_open,
    w_delivered_open_chars, w_delivered_rest, w_description, w_to_help, w_to_help_chars, w_brief_help,
    w_brief_help_chars, w_delivered_rest_chars, w_need_brief, w_need_brief_chars,
    w_not_yourself, w_not_yourself_chars, w_only_one, w_only_one_chars, w_pickup_mid, w_pickup_mid_chars,
    w_pickup_open, w_pickup_open_chars, w_pickup_rest, w_pickup_rest_chars, w_ran_past, w_ran_past_chars,
    w_retired_tail, w_retired_tail_chars, w_room_mid, w_room_mid_chars, w_to, w_to_chars, w_turn_wall,
    w_turn_wall_chars, w_unknown_head, w_unknown_head_chars, w_unknown_mid, w_unknown_mid_chars,
};

verus! {

broadcast use vstd::std_specs::vec::group_vec_axioms;

/// The name the hand-off tool is offered and called under.
pub const HAND_OFF_TOOL: &'static str = "hand_off";

/// One teammate's hand-off tool.
pub struct HandOffTool {
    pub company: String,
    /// Whose tool this is: the teammate that would be handing over.
    pub agent: String,
}

impl HandOffTool {
    /// Build this teammate's copy.
    pub fn new(company: String, agent: String) -> (r: HandOffTool)
        ensures
            r.company@ == company@,
            r.agent@ == agent@,
    {
        HandOffTool { company, agent }
    }

    /// The tool's name.
    pub fn name(&self) -> (r: &'static str)
        ensures
            r == HAND_OFF_TOOL,
    {
        HAND_OFF_TOOL
    }
}

// ------------------------------------------------------------ the offer

/// The schema of one string argument, described to the model as `help`.
pub open spec fn string_param(help: Seq<char>) -> JsonV {
    JsonV::Object(seq![("description"@, JsonV::Str(help)), ("type"@, JsonV::Str("string"@))])
}

/// The schema of the tool's arguments: an object of exactly a `to` and a
/// `brief`, both strings, both required. Members come in key order, the
/// order a parsed object keeps them in.
pub open spec fn hand_off_schema() -> JsonV {
    JsonV::Object(
        seq![
            ("additionalProperties"@, JsonV::Bool(false)),
            (
                "properties"@,
                JsonV::Object(
                    seq![(w_brief(), string_param(w_brief_help())), (w_to(), string_param(w_to_help()))],
                ),
            ),
            ("required"@, JsonV::Array(seq![JsonV::Str(w_to()), JsonV::Str(w_brief())])),
            ("type"@, JsonV::Str("object"@)),
        ],
    )
}

fn string_param_json(help: Vec<char>) -> (r: Json)
    ensures
        r@ == string_param(help@),
{
    let p: Vec<(String, Json)> = vec![
        ("description".to_owned(), Json::Str(string_of(help.as_slice()))),
        ("type".to_owned(), Json::Str("string".to_owned())),
    ];
    proof {
        lemma_object_view(p);
    }
    assert(pairs_view(p@) =~= seq![("description"@, JsonV::Str(help@)), ("type"@, JsonV::Str("string"@))]);
    Json::Object(p)
}

impl HandOffTool {
    /// What the tool tells the model it is for.
    pub fn description(&self) -> (r: &'static str)
        ensures
            r@ == w_description(),
    {
        "Hand this conversation to the teammate who should be having it, and stop. Use it when the work turns out to be somebody else's, or when you have taken it as far as you own. They pick it up in their own channel with the operator and open the conversation themselves, so do not promise to come back with anything. After calling this, say in your reply who you handed to and why — that sentence is what the operator reads. If you only need something from a teammate and are still the one answering, delegate to them instead; this gives the conversation away."
    }

    /// How much the tool may change: it gives a conversation away and spends
    /// another teammate's turn, but reaches nothing outside the company.
    pub fn permission_level(&self) -> (r: PermissionLevel)
        ensures
            r == PermissionLevel::Write,
    {
        PermissionLevel::Write
    }

    /// The schema of the tool's arguments.
    pub fn parameters_schema(&self) -> (r: Json)
        ensures
            r@ == hand_off_schema(),
    {
        let brief_param = string_param_json(w_brief_help_chars());
        let to_param = string_param_json(w_to_help_chars());
        let props: Vec<(String, Json)> = vec![
            (string_of(w_brief_chars().as_slice()), brief_param),
            (string_of(w_to_chars().as_slice()), to_param),
        ];
        let ghost pv = seq![(w_brief(), string_param(w_brief_help())), (w_to(), string_param(w_to_help()))];
        proof {
            lemma_object_view(props);
        }
        assert(pairs_view(props@) =~= pv);
        let req: Vec<Json> = vec![
            Json::Str(string_of(w_to_chars().as_slice())),
            Json::Str(string_of(w_brief_chars().as_slice())),
        ];
        proof {
            lemma_array_view(req);
        }
        assert(elems_view(req@) =~= seq![JsonV::Str(w_to()), JsonV::Str(w_brief())]);
        let top: Vec<(String, Json)> = vec![
            ("additionalProperties".to_owned(), Json::Bool(false)),
            ("properties".to_owned(), Json::Object(props)),
            ("required".to_owned(), Json::Array(req)),
            ("type".to_owned(), Json::Str("object".to_owned())),
        ];
        proof {
            lemma_object_view(top);
        }
        assert(pairs_view(top@) =~= seq![
            ("additionalProperties"@, JsonV::Bool(false)),
            ("properties"@, JsonV::Object(pv)),
            ("required"@, JsonV::Array(seq![JsonV::Str(w_to()), JsonV::Str(w_brief())])),
            ("type"@, JsonV::Str("object"@)),
        ]);
        Json::Object(top)
    }
}

// ------------------------------------------------------------- the target

/// The roster ids from the `k`-th on other than `from`, appended to `acc`.
pub open spec fn choices_go(roster: Seq<Seq<char>>, from: Seq<char>, k: int, acc: Seq<Seq<char>>) -> Seq<
    Seq<char>,
>
    decreases roster.len() - k,
{
    if k < 0 || k >= roster.len() {
        acc
    } else if roster[k] == from {
        choices_go(roster, from, k + 1, acc)
    } else {
        choices_go(roster, from, k + 1, acc.push(roster[k]))
    }
}

/// `parts` joined with `, `, from the `k`-th on, after `acc`.
pub open spec fn join_names(parts: Seq<Seq<char>>, k: int, acc: Seq<char>) -> Seq<char>
    decreases parts.len() - k,
{
    if k < 0 || k >= parts.len() {
        acc
    } else if k == 0 {
        join_names(parts, k + 1, acc + parts[k])
    } else {
        join_names(parts, k + 1, acc + seq![',', ' '] + parts[k])
    }
}

/// Who a refused caller is told it can hand to: every other roster id, in
/// order, or that there is nobody.
pub open spec fn choices_text(roster: Seq<Seq<char>>, from: Seq<char>) -> Seq<char> {
    let names = sorted_names(choices_go(roster, from, 0, Seq::empty()));
    if names.len() == 0 {
        w_only_one()
    } else {
        join_names(names, 0, Seq::empty())
    }
}

/// The verdict on `from` handing to `to`: `to` with surrounding whitespace
/// removed, when that is a current teammate other than `from`; otherwise
/// the reason it is not.
pub open spec fn target_check(roster: Seq<Seq<char>>, retired: Seq<Seq<char>>, from: Seq<char>, to: Seq<char>) -> Result<
    Seq<char>,
    Seq<char>,
> {
    let to = trim(to);
    if to.len() == 0 {
        Err(w_ask_for_name())
    } else if to == from {
        Err(w_not_yourself())
    } else if retired.contains(to) {
        Err(seq!['`'] + to + w_retired_tail())
    } else if !roster.contains(to) {
        Err(w_unknown_head() + to + w_unknown_mid() + choices_text(roster, from))
    } else {
        Ok(to)
    }
}

pub open spec fn result_view(r: Result<String, String>) -> Result<Seq<char>, Seq<char>> {
    match r {
        Ok(s) => Ok(s@),
        Err(s) => Err(s@),
    }
}

/// The other roster ids, sorted.
fn sorted_choices(roster: &[String], from: &[char]) -> (r: Vec<Vec<char>>)
    ensures
        chars_seqs(r@) == sorted_names(choices_go(strings_view(roster@), from@, 0, Seq::empty())),
{
    let ghost rs = strings_view(roster@);
    let mut names: Vec<Vec<char>> = Vec::new();
    let mut k: usize = 0;
    assert(chars_seqs(names@) =~= Seq::<Seq<char>>::empty());
    while k < roster.len()
        invariant
            k <= roster@.len(),
            rs == strings_view(roster@),
            choices_go(rs, from@, 0, Seq::empty()) == choices_go(rs, from@, k as int, chars_seqs(names@)),
        decreases roster.len() - k,
    {
        let c = chars_of(roster[k].as_str());
        if !crate::text::chars_eq(c.as_slice(), from) {
            let ghost before = chars_seqs(names@);
            let ghost cv = c@;
            names.push(c);
            assert(chars_seqs(names@) =~= before.push(cv));
        }
        k = k + 1;
    }
    sort_names(&names)
}

fn push_vec(out: &mut Vec<char>, v: Vec<char>)
    ensures
        final(out)@ == old(out)@ + v@,
{
    push_all(out, v.as_slice());
}

impl HandOffTool {
    /// Whether `to` is somebody `from` may hand to, and why not: the trimmed
    /// name when it is a roster teammate other than `from`; otherwise a
    /// refusal that says what was wrong and, for an unknown name, who can be
    /// handed to.
    pub fn check_target(roster: &[String], retired: &[String], from: &str, to: &str) -> (r: Result<
        String,
        String,
    >)
        ensures
            result_view(r) == target_check(strings_view(roster@), strings_view(retired@), from@, to@),
    {
        let tc = chars_of(to);
        let fc = chars_of(from);
        let (a, b) = trim_range(tc.as_slice(), 0, tc.len());
        assert(tc@.subrange(0, tc@.len() as int) =~= tc@);
        let mut t: Vec<char> = Vec::new();
        push_range(&mut t, tc.as_slice(), a, b);
        assert(t@ =~= trim(to@));
        if t.len() == 0 {
            return Err(string_of(w_ask_for_name_chars().as_slice()));
        }
        if crate::text::chars_eq(t.as_slice(), fc.as_slice()) {
            return Err(string_of(w_not_yourself_chars().as_slice()));
        }
        let rv: Vec<String> = copy_strings(retired);
        if known_contains(&rv, t.as_slice()) {
            let mut m: Vec<char> = Vec::new();
            m.push('`');
            push_all(&mut m, t.as_slice());
            push_vec(&mut m, w_retired_tail_chars());
            assert(m@ =~= seq!['`'] + t@ + w_retired_tail());
            return Err(string_of(m.as_slice()));
        }
        let ro: Vec<String> = copy_strings(roster);
        if !known_contains(&ro, t.as_slice()) {
            let names = sorted_choices(roster, fc.as_slice());
            let ghost ns = chars_seqs(names@);
            let mut m: Vec<char> = Vec::new();
            push_vec(&mut m, w_unknown_head_chars());
            push_all(&mut m, t.as_slice());
            push_vec(&mut m, w_unknown_mid_chars());
            let ghost head = m@;
            if names.len() == 0 {
                push_vec(&mut m, w_only_one_chars());
            } else {
                let mut j: usize = 0;
                assert(m@.skip(head.len() as int) =~= Seq::<char>::empty());
                while j < names.len()
                    invariant
                        j <= names@.len(),
                        ns == chars_seqs(names@),
                        m@.len() >= head.len(),
                        m@.take(head.len() as int) == head,
                        join_names(ns, 0, Seq::empty()) == join_names(ns, j as int, m@.skip(head.len() as int)),
                    decreases names.len() - j,
                {
                    let ghost prev = m@;
                    if j > 0 {
                        m.push(',');
                        m.push(' ');
                    }
                    push_all(&mut m, names[j].as_slice());
                    proof {
                        assert(m@.take(head.len() as int) =~= head);
                        if j > 0 {
                            assert(m@.skip(head.len() as int) =~= prev.skip(head.len() as int) + seq![',', ' ']
                                + ns[j as int]);
                        } else {
                            assert(m@.skip(head.len() as int) =~= prev.skip(head.len() as int) + ns[j as int]);
                        }
                    }
                    j = j + 1;
                }
                assert(m@ =~= head + m@.skip(head.len() as int));
            }
            return Err(string_of(m.as_slice()));
        }
        Ok(string_of(t.as_slice()))
    }
}

/// A copy of `v`.
fn copy_strings(v: &[String]) -> (r: Vec<String>)
    ensures
        strings_view(r@) == strings_view(v@),
{
    let mut r: Vec<String> = Vec::new();
    let mut k: usize = 0;
    while k < v.len()
        invariant
            k <= v@.len(),
            strings_view(r@) == strings_view(v@).take(k as int),
        decreases v.len() - k,
    {
        let ghost before = strings_view(r@);
        r.push(v[k].clone());
        assert(strings_view(r@) =~= before.push(v@[k as int]@));
        assert(strings_view(v@).take(k + 1) =~= strings_view(v@).take(k as int).push(v@[k as int]@));
        k = k + 1;
    }
    assert(strings_view(v@).take(k as int) =~= strings_view(v@));
    r
}

// ------------------------------------------------------------ the texts

/// What the receiving teammate is opened with.
pub open spec fn opening_text(from: Seq<char>, brief: Seq<char>) -> Seq<char> {
    w_brief_open() + from + w_brief_after_from() + brief + w_brief_rest()
}

impl HandOffTool {
    /// What the receiving teammate is opened with: addressed to it as an
    /// instruction from `from`, carrying the ask `brief`.
    pub fn opening_brief(from: &str, brief: &str) -> (r: String)
        ensures
            r@ == opening_text(from@, brief@),
    {
        let mut m = w_brief_open_chars();
        let f = chars_of(from);
        push_all(&mut m, f.as_slice());
        push_vec(&mut m, w_brief_after_from_chars());
        let b = chars_of(brief);
        push_all(&mut m, b.as_slice());
        push_vec(&mut m, w_brief_rest_chars());
        string_of(m.as_slice())
    }
}

/// What the tool reports once the hand-over is journaled and the room is
/// opening.
pub open spec fn delivered_text(to: Seq<char>) -> Seq<char> {
    w_delivered_open() + to + w_delivered_rest()
}

/// What the tool reports once the hand-over to `to` is under way.
pub fn delivered(to: &str) -> (r: String)
    ensures
        r@ == delivered_text(to@),
{
    let mut m = w_delivered_open_chars();
    let t = chars_of(to);
    push_all(&mut m, t.as_slice());
    push_vec(&mut m, w_delivered_rest_chars());
    string_of(m.as_slice())
}

/// What the receiving teammate says in its own channel when the room it was
/// handed could not run.
pub open spec fn pickup_failure_text(handing: Seq<char>, error: Seq<char>) -> Seq<char> {
    w_pickup_open() + handing + w_pickup_mid() + error + w_pickup_rest()
}

/// The row the receiving teammate leaves when the room could not run.
pub fn pickup_failure(handing: &str, error: &str) -> (r: String)
    ensures
        r@ == pickup_failure_text(handing@, error@),
{
    let mut m = w_pickup_open_chars();
    let h = chars_of(handing);
    push_all(&mut m, h.as_slice());
    push_vec(&mut m, w_pickup_mid_chars());
    let e = chars_of(error);
    push_all(&mut m, e.as_slice());
    push_vec(&mut m, w_pickup_rest_chars());
    string_of(m.as_slice())
}

/// The hand-over room's title: `{from} handing to {to}`.
pub open spec fn room_title_text(from: Seq<char>, to: Seq<char>) -> Seq<char> {
    from + w_room_mid() + to
}

/// The hand-over room's title.
pub fn room_title(from: &str, to: &str) -> (r: String)
    ensures
        r@ == room_title_text(from@, to@),
{
    let mut m = chars_of(from);
    push_vec(&mut m, w_room_mid_chars());
    let t = chars_of(to);
    push_all(&mut m, t.as_slice());
    string_of(m.as_slice())
}

// ------------------------------------------------------- the arguments

/// The `brief` argument, trimmed, when it is a non-empty string.
pub open spec fn brief_arg(args: JsonV) -> Option<Seq<char>> {
    match get_member(args, w_brief()) {
        Some(JsonV::Str(s)) => if trim(s).len() > 0 {
            Some(trim(s))
        } else {
            None
        },
        _ => None,
    }
}

/// The `brief` argument, trimmed, when it is a non-empty string.
pub fn brief_of(args: &Json) -> (r: Option<String>)
    ensures
        (match r {
            Some(s) => Some(s@),
            None => None::<Seq<char>>,
        }) == brief_arg(jview(*args)),
{
    let bw = w_brief_chars();
    match member(args, bw.as_slice()) {
        Some(Json::Str(s)) => {
            let c = chars_of(s.as_str());
            let (a, b) = trim_range(c.as_slice(), 0, c.len());
            assert(c@.subrange(0, c@.len() as int) =~= c@);
            if a == b {
                None
            } else {
                let mut t: Vec<char> = Vec::new();
                push_range(&mut t, c.as_slice(), a, b);
                Some(string_of(t.as_slice()))
            }
        },
        _ => None,
    }
}

/// The `to` argument as written, or empty when it is absent or not a
/// string.
pub open spec fn to_arg(args: JsonV) -> Seq<char> {
    match get_member(args, w_to()) {
        Some(JsonV::Str(s)) => s,
        _ => Seq::empty(),
    }
}

/// The `to` argument as written, or empty when it is absent or not a
/// string.
pub fn target_of(args: &Json) -> (r: String)
    ensures
        r@ == to_arg(jview(*args)),
{
    let tw = w_to_chars();
    match member(args, tw.as_slice()) {
        Some(Json::Str(s)) => s.clone(),
        _ => String::new(),
    }
}

/// The refusal when the call carries no usable brief.
pub fn missing_brief() -> (r: String)
    ensures
        r@ == w_need_brief(),
{
    string_of(w_need_brief_chars().as_slice())
}

// ----------------------------------------------------- the room's ending

/// How the hand-over room ended.
pub enum RoomOutcome {
    /// The room ran to its end.
    Finished,
    /// The room stopped with a harness error carrying this text.
    HarnessError(String),
    /// The room stopped with any other error.
    OtherError,
}

/// Whether `pat` occurs in `s`.
pub open spec fn mentions(s: Seq<char>, pat: Seq<char>) -> bool {
    find_in(s, 0, s.len() as int, pat) is Some
}

/// Whether a room that ended this way failed to run, and so is worth
/// telling the operator about. Running into the turn wall or the
/// wall-clock bound is the expected ending of a hand-over room, not a
/// failure.
pub open spec fn room_failed_spec(outcome: RoomOutcome) -> bool {
    match outcome {
        RoomOutcome::Finished => false,
        RoomOutcome::HarnessError(text) => !mentions(text@, w_turn_wall()) && !mentions(text@, w_ran_past()),
        RoomOutcome::OtherError => true,
    }
}

fn mentions_exec(s: &[char], pat: &[char]) -> (r: bool)
    ensures
        r == mentions(s@, pat@),
{
    match find_from(s, 0, s.len(), pat) {
        Some(_) => true,
        None => false,
    }
}

/// Whether a hand-over room that ended this way failed to run.
pub fn room_failed(outcome: &RoomOutcome) -> (r: bool)
    ensures
        r == room_failed_spec(*outcome),
{
    match outcome {
        RoomOutcome::Finished => false,
        RoomOutcome::HarnessError(text) => {
            let c = chars_of(text.as_str());
            let wall = w_turn_wall_chars();
            let past = w_ran_past_chars();
            !mentions_exec(c.as_slice(), wall.as_slice()) && !mentions_exec(c.as_slice(), past.as_slice())
        },
        RoomOutcome::OtherError => true,
    }
}

// ---------------------------------------------------------------- laws

proof fn lemma_choices_members(roster: Seq<Seq<char>>, from: Seq<char>, k: int, acc: Seq<Seq<char>>)
    requires
        0 <= k <= roster.len(),
    ensures
        forall|x: Seq<char>|
            #[trigger] choices_go(roster, from, k, acc).contains(x) <==> (acc.contains(x) || (x != from
                && roster.subrange(k, roster.len() as int).contains(x))),
    decreases roster.len() - k,
{
    let r = choices_go(roster, from, k, acc);
    if k < roster.len() {
        let acc2 = if roster[k] == from {
            acc
        } else {
            acc.push(roster[k])
        };
        lemma_choices_members(roster, from, k + 1, acc2);
        assert(r == choices_go(roster, from, k + 1, acc2));
        assert forall|x: Seq<char>| #[trigger] r.contains(x) <==> (acc.contains(x) || (x != from
            && roster.subrange(k, roster.len() as int).contains(x))) by {
            let tail = roster.subrange(k, roster.len() as int);
            let tail2 = roster.subrange(k + 1, roster.len() as int);
            assert(tail =~= seq![roster[k]] + tail2);
            if tail.contains(x) {
                let w = choose|w: int| 0 <= w < tail.len() && tail[w] == x;
                if w > 0 {
                    assert(tail2[w - 1] == x);
                }
            }
            if tail2.contains(x) {
                let w = choose|w: int| 0 <= w < tail2.len() && tail2[w] == x;
                assert(tail[w + 1] == x);
            }
            if acc2.contains(x) && roster[k] != from {
                let w = choose|w: int| 0 <= w < acc2.len() && acc2[w] == x;
                if w < acc.len() {
                    assert(acc[w] == x);
                } else {
                    assert(tail[0] == x);
                }
            }
            if acc.contains(x) && roster[k] != from {
                let w = choose|w: int| 0 <= w < acc.len() && acc[w] == x;
                assert(acc2[w] == x);
            }
            if x == roster[k] && x != from {
                assert(acc2[acc.len() as int] == x);
            }
        }
    } else {
        assert(r == acc);
        assert forall|x: Seq<char>| #[trigger] r.contains(x) <==> (acc.contains(x) || (x != from
            && roster.subrange(k, roster.len() as int).contains(x))) by {
            assert(roster.subrange(k, roster.len() as int).len() == 0);
        }
    }
}

/// The teammates a refused caller is offered are exactly the roster's,
/// less the caller itself.
pub proof fn lemma_choices_are_the_others(roster: Seq<Seq<char>>, from: Seq<char>)
    ensures
        forall|x: Seq<char>|
            #[trigger] sorted_names(choices_go(roster, from, 0, Seq::empty())).contains(x) <==> (
            roster.contains(x) && x != from),
{
    let c = choices_go(roster, from, 0, Seq::empty());
    lemma_choices_members(roster, from, 0, Seq::empty());
    lemma_sort_names_members(c, 0, Seq::empty());
    assert(roster.subrange(0, roster.len() as int) =~= roster);
    assert(c.subrange(0, c.len() as int) =~= c);
}

/// A hand-off goes through only to a roster teammate other than the one
/// handing, under the name as given less surrounding whitespace, and never
/// to a retired teammate; a blank name, the caller itself, a retired
/// teammate and a stranger are each refused for that reason.
pub proof fn lemma_hand_off_target(roster: Seq<Seq<char>>, retired: Seq<Seq<char>>, from: Seq<char>, to: Seq<char>)
    ensures
        target_check(roster, retired, from, to) is Ok <==> (trim(to).len() > 0 && trim(to) != from
            && !retired.contains(trim(to)) && roster.contains(trim(to))),
        target_check(roster, retired, from, to) matches Ok(t) ==> t == trim(to),
        trim(to).len() == 0 ==> target_check(roster, retired, from, to) == Err::<Seq<char>, Seq<char>>(
            w_ask_for_name(),
        ),
        trim(to).len() > 0 && trim(to) == from ==> target_check(roster, retired, from, to) == Err::<
            Seq<char>,
            Seq<char>,
        >(w_not_yourself()),
{
}

} // verus!
