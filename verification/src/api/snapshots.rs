//! Snapshots that were saved when an agent stopped.
use vstd::prelude::*;

verus! {

/// `serde_json::Value`, opaque: what one holds is given by [`fields_in`].
#[verifier::external_type_specification]
#[verifier::external_body]
pub struct ExValue(serde_json::Value);

/// The fields of a JSON object: each name with the text that its value is
/// written as, without white space. `None` for any other JSON value.
pub uninterp spec fn fields_in(v: serde_json::Value) -> Option<Map<Seq<char>, Seq<char>>>;

/// What `serde_json::from_str` reads from a text: `None` where it is not JSON,
/// else what [`fields_in`] gives of the value.
pub uninterp spec fn json_of(text: Seq<char>) -> Option<Option<Map<Seq<char>, Seq<char>>>>;

/// `serde_json::from_str`, into a `Value`. Claimed: whether it succeeds, and the
/// fields of what it reads, depend on the text alone. Of a value that is no
/// object nothing more is said.
#[verifier::external_body]
fn parsed(text: &str) -> (r: Option<serde_json::Value>)
    ensures
        match r {
            Some(v) => json_of(text@) == Some(fields_in(v)),
            None => json_of(text@) is None,
        },
{
    serde_json::from_str(text).ok()
}

/// `Value::as_object_mut` and `Map::insert`: an object gets the field, over
/// whatever was there under its name, and keeps the others. Any other value
/// stays as it is.
#[verifier::external_body]
fn set_flag(v: &mut serde_json::Value, name: &str, flag: bool)
    ensures
        fields_in(*final(v)) == match fields_in(*old(v)) {
            Some(m) => Some(m.insert(name@, flag_text(flag))),
            None => None,
        },
        fields_in(*old(v)) is None ==> *final(v) == *old(v),
{
    if let Some(fields) = v.as_object_mut() {
        fields.insert(name.to_string(), serde_json::Value::Bool(flag));
    }
}

/// A truth value as JSON writes it.
pub open spec fn flag_text(flag: bool) -> Seq<char> {
    if flag {
        "true"@
    } else {
        "false"@
    }
}

/// The fields of a snapshot that is shown after its agent stopped: marked as
/// frozen, and not running whatever it said.
pub open spec fn frozen_fields(m: Map<Seq<char>, Seq<char>>) -> Map<Seq<char>, Seq<char>> {
    m.insert("frozen"@, flag_text(true)).insert("running"@, flag_text(false))
}

/// Marks a saved snapshot as frozen and not running. A value that is no object
/// stays as it is.
pub fn frozen(v: serde_json::Value) -> (r: serde_json::Value)
    ensures
        fields_in(r) == match fields_in(v) {
            Some(m) => Some(frozen_fields(m)),
            None => None,
        },
        fields_in(v) is None ==> r == v,
{
    let mut shown: serde_json::Value = v;
    set_flag(&mut shown, "frozen", true);
    set_flag(&mut shown, "running", false);
    shown
}

/// The snapshot that a saved text shows; `None` when the text is corrupt.
pub fn frozen_snapshot(text: &str) -> (r: Option<serde_json::Value>)
    ensures
        r is Some <==> json_of(text@) is Some,
        r matches Some(v) ==> fields_in(v) == match json_of(text@)->0 {
            Some(m) => Some(frozen_fields(m)),
            None => None,
        },
{
    match parsed(text) {
        Some(v) => Some(frozen(v)),
        None => None,
    }
}

/// A frozen snapshot never shows as running, is marked as frozen, and shows
/// everything else as it was saved.
pub proof fn frozen_is_not_running(m: Map<Seq<char>, Seq<char>>, name: Seq<char>)
    ensures
        frozen_fields(m)["running"@] == "false"@,
        frozen_fields(m)["frozen"@] == "true"@,
        name != "running"@ && name != "frozen"@ ==> {
            &&& frozen_fields(m).dom().contains(name) <==> m.dom().contains(name)
            &&& frozen_fields(m)[name] == m[name]
        },
{
    reveal_strlit("running");
    reveal_strlit("frozen");
    assert("running"@ != "frozen"@) by {
        assert("running"@.len() != "frozen"@.len());
    }
}

} // verus!
