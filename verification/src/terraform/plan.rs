//! What a Terraform plan changes.

use vstd::prelude::*;

use crate::json::{json_field, JsonValue};
use crate::order::views;
use crate::terraform::crud_map::CrudSlots;
use crate::text::{has_prefix, opt_text, same, starts_with, texts};

verus! {

/// How the types of AWS resources start.
pub const AWS_RESOURCE_PREFIX: &'static str = "aws_";

/// A change as the plan has it.
#[derive(Debug)]
pub struct RawResourceChange {
    pub address: String,
    pub resource_type: String,
    /// `data` for what is only read, `managed` for what Terraform manages.
    pub mode: Option<String>,
    pub actions: Vec<String>,
    /// The attributes after the change.
    pub after: JsonValue,
}

/// A change of a managed AWS resource.
#[derive(Debug, PartialEq, Eq)]
pub struct PlannedResource {
    /// The full address, such as `aws_s3_bucket.example`.
    pub address: String,
    pub resource_type: String,
    /// The steps that the change takes.
    pub slots: CrudSlots,
    /// The prefix of the name, where the name itself is not known.
    pub name_prefix: Option<String>,
}

pub struct PlannedView {
    pub address: Seq<char>,
    pub resource_type: Seq<char>,
    pub slots: CrudSlots,
    pub name_prefix: Option<Seq<char>>,
}

impl View for PlannedResource {
    type V = PlannedView;

    open spec fn view(&self) -> PlannedView {
        PlannedView {
            address: self.address@,
            resource_type: self.resource_type@,
            slots: self.slots,
            name_prefix: opt_text(self.name_prefix),
        }
    }
}

/// The steps that actions take. The resource is always read; actions of other names take no
/// further step.
pub open spec fn slots_of(actions: Seq<Seq<char>>) -> CrudSlots {
    CrudSlots {
        create: actions.contains("create"@),
        read: true,
        update: actions.contains("update"@),
        delete: actions.contains("delete"@),
    }
}

proof fn lemma_contains_step(s: Seq<Seq<char>>, i: int, x: Seq<char>)
    requires
        0 <= i < s.len(),
    ensures
        s.subrange(0, i + 1).contains(x) == (s.subrange(0, i).contains(x) || s[i] == x),
{
    let t = s.subrange(0, i);
    let u = s.subrange(0, i + 1);
    if t.contains(x) {
        let k = choose|k: int| 0 <= k < t.len() && t[k] == x;
        assert(u[k] == x);
    }
    if s[i] == x {
        assert(u[i] == x);
    }
    if u.contains(x) && s[i] != x {
        let k = choose|k: int| 0 <= k < u.len() && u[k] == x;
        assert(t[k] == x);
    }
}

/// The steps that the actions of a change take.
pub fn slots_for_actions(actions: &Vec<String>) -> (r: CrudSlots)
    ensures
        r == slots_of(texts(actions@)),
{
    let ghost s = texts(actions@);
    let mut slots = CrudSlots { create: false, read: true, update: false, delete: false };
    let mut i: usize = 0;
    assert(slots == slots_of(s.subrange(0, 0)));
    while i < actions.len()
        invariant
            i <= actions@.len(),
            s == texts(actions@),
            slots == slots_of(s.subrange(0, i as int)),
        decreases actions@.len() - i,
    {
        let action = actions[i].as_str();
        proof {
            assert(s[i as int] == action@);
            lemma_contains_step(s, i as int, "create"@);
            lemma_contains_step(s, i as int, "update"@);
            lemma_contains_step(s, i as int, "delete"@);
        }
        slots =
        CrudSlots {
            create: slots.create || same(action, "create"),
            read: true,
            update: slots.update || same(action, "update"),
            delete: slots.delete || same(action, "delete"),
        };
        i = i + 1;
    }
    assert(s.subrange(0, s.len() as int) =~= s);
    slots
}

/// Every change reads the resource.
pub proof fn every_change_reads(actions: Seq<Seq<char>>)
    ensures
        slots_of(actions).read,
{
}

/// The order of the actions does not matter.
pub proof fn order_of_actions_does_not_matter(a: Seq<Seq<char>>, b: Seq<Seq<char>>)
    requires
        a.to_set() == b.to_set(),
    ensures
        slots_of(a) == slots_of(b),
{
    assert(forall|x: Seq<char>| a.contains(x) == a.to_set().contains(x));
    assert(forall|x: Seq<char>| b.contains(x) == b.to_set().contains(x));
}

/// The prefix of the name among the attributes. A resource whose name is known has none, and
/// neither has one whose prefix is empty.
pub open spec fn name_prefix_of(after: JsonValue) -> Option<Seq<char>> {
    let named = match json_field(after, "name"@) {
        Some(v) => v !is Null,
        None => false,
    };
    if named {
        None
    } else {
        match json_field(after, "name_prefix"@) {
            Some(JsonValue::Text(s)) => if s@.len() > 0 {
                Some(s@)
            } else {
                None
            },
            _ => None,
        }
    }
}

/// The prefix of the name among the attributes, where the name itself is not known.
pub fn extract_name_prefix(after: &JsonValue) -> (r: Option<String>)
    ensures
        opt_text(r) == name_prefix_of(*after),
{
    if let Some(v) = after.get("name") {
        match v {
            JsonValue::Null => {},
            _ => {
                return None;
            },
        }
    }
    match after.get("name_prefix") {
        Some(JsonValue::Text(s)) => if s.as_str().is_empty() {
            None
        } else {
            Some(s.clone())
        },
        _ => None,
    }
}

/// Whether a change is that of a managed AWS resource.
pub open spec fn is_planned(c: RawResourceChange) -> bool {
    opt_text(c.mode) != Some("data"@) && has_prefix(c.resource_type@, AWS_RESOURCE_PREFIX@)
}

pub open spec fn planned(c: RawResourceChange) -> PlannedView {
    PlannedView {
        address: c.address@,
        resource_type: c.resource_type@,
        slots: slots_of(texts(c.actions@)),
        name_prefix: name_prefix_of(c.after),
    }
}

/// The changes of managed AWS resources, in their order.
pub open spec fn planned_of(changes: Seq<RawResourceChange>) -> Seq<PlannedView>
    decreases changes.len(),
{
    if changes.len() == 0 {
        Seq::empty()
    } else if is_planned(changes.last()) {
        planned_of(changes.drop_last()).push(planned(changes.last()))
    } else {
        planned_of(changes.drop_last())
    }
}

/// The changes of managed AWS resources. Data sources and resources of others are left out.
pub fn planned_resources(changes: &Vec<RawResourceChange>) -> (r: Vec<PlannedResource>)
    ensures
        views(r@) == planned_of(changes@),
{
    let ghost s = changes@;
    let mut out: Vec<PlannedResource> = Vec::new();
    let mut i: usize = 0;
    assert(s.subrange(0, 0).len() == 0);
    assert(views(out@) =~= Seq::<PlannedView>::empty());
    while i < changes.len()
        invariant
            i <= changes@.len(),
            s == changes@,
            views(out@) == planned_of(s.subrange(0, i as int)),
        decreases changes@.len() - i,
    {
        let ghost u = s.subrange(0, i + 1);
        let ghost before = views(out@);
        assert(u.drop_last() =~= s.subrange(0, i as int));
        assert(u.last() == changes@[i as int]);
        let c = &changes[i];
        let is_data = match &c.mode {
            Some(m) => same(m.as_str(), "data"),
            None => false,
        };
        if !is_data && starts_with(c.resource_type.as_str(), AWS_RESOURCE_PREFIX) {
            let p = PlannedResource {
                address: c.address.clone(),
                resource_type: c.resource_type.clone(),
                slots: slots_for_actions(&c.actions),
                name_prefix: extract_name_prefix(&c.after),
            };
            out.push(p);
            assert(views(out@) =~= before.push(planned(*c)));
        }
        i = i + 1;
    }
    assert(s.subrange(0, s.len() as int) =~= s);
    out
}

/// The keys of the object that a text is in JSON, each with whether its value is an array.
pub uninterp spec fn json_object(bytes: Seq<u8>) -> Option<Seq<(Seq<char>, bool)>>;

pub open spec fn field_views(v: Seq<(String, bool)>) -> Seq<(Seq<char>, bool)> {
    v.map_values(|f: (String, bool)| (f.0@, f.1))
}

pub open spec fn opt_fields(o: Option<Vec<(String, bool)>>) -> Option<Seq<(Seq<char>, bool)>> {
    match o {
        Some(v) => Some(field_views(v@)),
        None => None,
    }
}

/// `from_slice` of serde_json parses the bytes as JSON. Of an object its keys are listed, each with
/// what `Value::is_array` says of its value; there is nothing for bytes that are no JSON or no
/// object. The result depends on the bytes alone.
#[verifier::external_body]
fn parse_json_object(bytes: &[u8]) -> (r: Option<Vec<(String, bool)>>)
    ensures
        opt_fields(r) == json_object(bytes@),
{
    match serde_json::from_slice::<serde_json::Value>(bytes) {
        Ok(serde_json::Value::Object(fields)) => {
            Some(fields.into_iter().map(|(key, value)| (key, value.is_array())).collect())
        },
        _ => None,
    }
}

/// Whether an object with these fields is a plan: it has a version of its format and a list of
/// changes. A state has no changes, and other documents have no such version.
pub open spec fn fields_make_plan(fields: Seq<(Seq<char>, bool)>) -> bool {
    &&& exists|i: int| 0 <= i < fields.len() && (#[trigger] fields[i]).0 == "format_version"@
    &&& fields.contains(("resource_changes"@, true))
}

/// Whether bytes are a plan.
pub open spec fn is_plan(bytes: Seq<u8>) -> bool {
    match json_object(bytes) {
        Some(fields) => fields_make_plan(fields),
        None => false,
    }
}

/// Whether an object with these fields is a plan.
pub fn fields_look_like_plan(fields: &Vec<(String, bool)>) -> (r: bool)
    ensures
        r == fields_make_plan(field_views(fields@)),
{
    let ghost s = field_views(fields@);
    let mut version = false;
    let mut changes = false;
    let mut i: usize = 0;
    while i < fields.len()
        invariant
            i <= fields@.len(),
            s == field_views(fields@),
            version == exists|k: int| 0 <= k < i && (#[trigger] s[k]).0 == "format_version"@,
            changes == exists|k: int| 0 <= k < i && #[trigger] s[k] == ("resource_changes"@, true),
        decreases fields@.len() - i,
    {
        assert(s[i as int] == (fields@[i as int].0@, fields@[i as int].1));
        let key = fields[i].0.as_str();
        if same(key, "format_version") {
            version = true;
        }
        if same(key, "resource_changes") && fields[i].1 {
            changes = true;
        }
        i = i + 1;
    }
    version && changes
}

/// Whether the bytes are the output of `terraform show -json` for a plan.
pub fn looks_like_plan(bytes: &[u8]) -> (r: bool)
    ensures
        r == is_plan(bytes@),
{
    match parse_json_object(bytes) {
        Some(fields) => fields_look_like_plan(&fields),
        None => false,
    }
}

} // verus!
