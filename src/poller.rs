//! One poll cycle: the batch of tagged status objects, and the dashboard's answer.
use vstd::prelude::*;

verus! {

/// Failures of one poll cycle. Each is reported and the next cycle goes on.
#[derive(Debug)]
pub enum CycleError {
    /// The registry's backing text could not be read as a registry.
    ConfigCorrupt,
    /// The registry holds no entry.
    NoFilesToWatch,
    /// The status file of `repo` could not be read.
    StatusFileUnreadable { repo: String },
    /// The status file of `repo` does not hold a JSON object.
    StatusFileInvalid { repo: String },
    /// The dashboard could not be reached.
    DashboardUnreachable,
    /// The dashboard answered with a status outside 200 to 299.
    DashboardRejected { status_code: u16 },
}

#[verifier::external_type_specification]
#[verifier::external_body]
pub struct ExJsonValue(serde_json::Value);

#[verifier::external_type_specification]
#[verifier::external_body]
#[verifier::reject_recursive_types(K)]
#[verifier::reject_recursive_types(V)]
pub struct ExJsonMap<K, V>(serde_json::Map<K, V>);

#[verifier::external_type_specification]
#[verifier::external_body]
pub struct ExJsonError(serde_json::Error);

/// Relies on serde_json::from_str: the JSON object that a text holds, if it
/// holds one.
pub uninterp spec fn json_object_of(text: Seq<char>) -> Option<
    serde_json::Map<String, serde_json::Value>,
>;

/// What a JSON object holds: each field's name and value.
pub uninterp spec fn object_fields(m: serde_json::Map<String, serde_json::Value>) -> Map<
    Seq<char>,
    serde_json::Value,
>;

/// Relies on serde_json::Value::String: the JSON string of a text.
pub uninterp spec fn json_string(s: Seq<char>) -> serde_json::Value;

/// Relies on serde_json::from_str, reading a JSON object.
#[verifier::external_body]
fn parse_object(text: &str) -> (r: Result<
    serde_json::Map<String, serde_json::Value>,
    serde_json::Error,
>)
    ensures
        match r {
            Ok(m) => json_object_of(text@) == Some(m),
            Err(_) => json_object_of(text@) is None,
        },
{
    serde_json::from_str(text)
}

/// Relies on serde_json::Map::insert: the field `key` then holds the string
/// `value`, and the other fields stay.
#[verifier::external_body]
fn set_string_field(m: &mut serde_json::Map<String, serde_json::Value>, key: String, value: String)
    ensures
        object_fields(*final(m)) == object_fields(*old(m)).insert(key@, json_string(value@)),
{
    m.insert(key, serde_json::Value::String(value));
}

/// The field that names a status object's repository.
pub open spec fn project_key() -> Seq<char> {
    seq!['p', 'r', 'o', 'j', 'e', 'c', 't']
}

/// A watched file's contents as a cycle reads them.
pub enum StatusContent {
    /// The file could not be read.
    Unreadable,
    /// The file was read but holds no JSON object.
    Invalid,
    /// The JSON object that the file holds.
    Object(serde_json::Map<String, serde_json::Value>),
}

/// Whether `s` is what the contents `c` of a watched file read as.
pub open spec fn read_as(c: Option<String>, s: StatusContent) -> bool {
    match c {
        None => s is Unreadable,
        Some(t) => match json_object_of(t@) {
            None => s is Invalid,
            Some(m) => s == StatusContent::Object(m),
        },
    }
}

/// The error that the failing status `s` of repository `repo` gives.
pub open spec fn status_error(repo: Seq<char>, s: StatusContent, e: CycleError) -> bool {
    match s {
        StatusContent::Unreadable => e matches CycleError::StatusFileUnreadable { repo: r } && r@
            == repo,
        StatusContent::Invalid => e matches CycleError::StatusFileInvalid { repo: r } && r@ == repo,
        StatusContent::Object(_) => false,
    }
}

/// Whether a watched file's contents were read and hold a JSON object.
pub open spec fn content_ok(c: Option<String>) -> bool {
    c matches Some(t) && json_object_of(t@) is Some
}

/// The error that the failing content `c` of repository `repo` gives.
pub open spec fn content_error(repo: Seq<char>, c: Option<String>, e: CycleError) -> bool {
    match c {
        None => e matches CycleError::StatusFileUnreadable { repo: r } && r@ == repo,
        Some(_) => e matches CycleError::StatusFileInvalid { repo: r } && r@ == repo,
    }
}

/// The status object of `text` with its `project` field set to `repo`.
pub open spec fn tagged(text: Seq<char>, repo: Seq<char>) -> Map<Seq<char>, serde_json::Value> {
    object_fields(json_object_of(text)->Some_0).insert(project_key(), json_string(repo))
}

/// What the contents of a watched file read as.
pub fn read_status(c: &Option<String>) -> (r: StatusContent)
    ensures
        read_as(*c, r),
{
    match c {
        None => StatusContent::Unreadable,
        Some(text) => match parse_object(text.as_str()) {
            Err(_) => StatusContent::Invalid,
            Ok(m) => StatusContent::Object(m),
        },
    }
}

/// The batch of one cycle from what each watched file read as: for each entry
/// (repository name, status file) in turn, its object with the `project` field
/// set to the repository name. The first entry that is no object ends the cycle.
pub fn tag_batch(entries: &Vec<(String, String)>, statuses: Vec<StatusContent>) -> (r: Result<
    Vec<serde_json::Map<String, serde_json::Value>>,
    CycleError,
>)
    requires
        statuses@.len() == entries@.len(),
    ensures
        entries@.len() == 0 ==> r matches Err(CycleError::NoFilesToWatch),
        entries@.len() > 0 ==> (r is Ok <==> forall|i: int|
            0 <= i < statuses@.len() ==> #[trigger] statuses@[i] is Object),
        r matches Ok(batch) ==> batch@.len() == entries@.len() && forall|i: int|
            0 <= i < batch@.len() ==> object_fields(#[trigger] batch@[i]) == object_fields(
                statuses@[i]->Object_0,
            ).insert(project_key(), json_string(entries@[i].0@)),
        forall|j: int|
            0 <= j < statuses@.len() && !(#[trigger] statuses@[j] is Object) && (forall|k: int|
                0 <= k < j ==> #[trigger] statuses@[k] is Object) ==> (r matches Err(e)
                && status_error(entries@[j].0@, statuses@[j], e)),
{
    if entries.len() == 0 {
        return Err(CycleError::NoFilesToWatch);
    }
    let ghost all = statuses@;
    let mut rest = statuses;
    let mut batch: Vec<serde_json::Map<String, serde_json::Value>> = Vec::new();
    let mut i: usize = 0;
    while i < entries.len()
        invariant
            i <= entries@.len(),
            all.len() == entries@.len(),
            all == statuses@,
            rest@ == all.subrange(i as int, all.len() as int),
            batch@.len() == i,
            forall|k: int| 0 <= k < i ==> #[trigger] all[k] is Object,
            forall|k: int|
                0 <= k < i ==> object_fields(#[trigger] batch@[k]) == object_fields(
                    all[k]->Object_0,
                ).insert(project_key(), json_string(entries@[k].0@)),
        decreases entries@.len() - i,
    {
        let repo = entries[i].0.clone();
        assert(rest@[0] == all[i as int]);
        let status = rest.remove(0);
        assert(rest@ =~= all.subrange(i + 1, all.len() as int));
        match status {
            StatusContent::Unreadable => {
                return Err(CycleError::StatusFileUnreadable { repo });
            },
            StatusContent::Invalid => {
                return Err(CycleError::StatusFileInvalid { repo });
            },
            StatusContent::Object(object) => {
                let mut object = object;
                let key = "project".to_string();
                proof {
                    reveal_strlit("project");
                    assert(key@ =~= project_key());
                }
                set_string_field(&mut object, key, repo);
                batch.push(object);
            },
        }
        i = i + 1;
    }
    Ok(batch)
}

/// The batch of one cycle: for each entry (repository name, status file) in turn,
/// the object that the file's contents hold, tagged with the repository name.
/// `contents[i]` is what was read from the status file of `entries[i]`, or none
/// when it could not be read. The first entry that fails ends the cycle.
pub fn build_batch(entries: &Vec<(String, String)>, contents: &Vec<Option<String>>) -> (r: Result<
    Vec<serde_json::Map<String, serde_json::Value>>,
    CycleError,
>)
    requires
        contents@.len() == entries@.len(),
    ensures
        entries@.len() == 0 ==> r matches Err(CycleError::NoFilesToWatch),
        entries@.len() > 0 ==> (r is Ok <==> forall|i: int|
            0 <= i < contents@.len() ==> #[trigger] content_ok(contents@[i])),
        r matches Ok(batch) ==> batch@.len() == entries@.len() && forall|i: int|
            0 <= i < batch@.len() ==> object_fields(#[trigger] batch@[i]) == tagged(
                contents@[i]->Some_0@,
                entries@[i].0@,
            ),
        forall|j: int|
            0 <= j < contents@.len() && !content_ok(#[trigger] contents@[j]) && (forall|k: int|
                0 <= k < j ==> content_ok(#[trigger] contents@[k])) ==> (r matches Err(e)
                && content_error(entries@[j].0@, contents@[j], e)),
{
    let mut statuses: Vec<StatusContent> = Vec::new();
    let mut i: usize = 0;
    while i < contents.len()
        invariant
            i <= contents@.len(),
            statuses@.len() == i,
            forall|k: int| 0 <= k < i ==> read_as(contents@[k], #[trigger] statuses@[k]),
        decreases contents@.len() - i,
    {
        let s = read_status(&contents[i]);
        statuses.push(s);
        i = i + 1;
    }
    let ghost sv = statuses@;
    assert forall|k: int| 0 <= k < sv.len() implies (#[trigger] sv[k] is Object) == content_ok(
        contents@[k],
    ) by {
        assert(read_as(contents@[k], sv[k]));
    }
    let r = tag_batch(entries, statuses);
    assert forall|j: int|
        0 <= j < contents@.len() && !content_ok(#[trigger] contents@[j]) && (forall|k: int|
            0 <= k < j ==> content_ok(#[trigger] contents@[k])) implies (r matches Err(e)
        && content_error(entries@[j].0@, contents@[j], e)) by {
        assert(!(sv[j] is Object));
        assert forall|k: int| 0 <= k < j implies #[trigger] sv[k] is Object by {
            assert(content_ok(contents@[k]));
        }
        assert(read_as(contents@[j], sv[j]));
    }
    assert forall|i: int| r is Ok && 0 <= i < contents@.len() implies #[trigger] content_ok(
        contents@[i],
    ) by {
        assert(sv[i] is Object);
    }
    assert forall|i: int| 0 <= i < contents@.len() && (forall|k: int|
        0 <= k < contents@.len() ==> #[trigger] content_ok(contents@[k])) implies #[trigger] sv[i] is Object by {
        assert(content_ok(contents@[i]));
    }
    if let Ok(batch) = &r {
        assert forall|i: int| 0 <= i < batch@.len() implies object_fields(#[trigger] batch@[i])
            == tagged(contents@[i]->Some_0@, entries@[i].0@) by {
            assert(read_as(contents@[i], sv[i]));
        }
    }
    r
}

/// The outcome of the dashboard's answer: its status code, or none when it could
/// not be reached.
pub fn classify_response(outcome: Option<u16>) -> (r: Result<(), CycleError>)
    ensures
        match outcome {
            None => r matches Err(CycleError::DashboardUnreachable),
            Some(c) => if 200 <= c <= 299 {
                r is Ok
            } else {
                r matches Err(CycleError::DashboardRejected { status_code }) && status_code == c
            },
        },
{
    match outcome {
        None => Err(CycleError::DashboardUnreachable),
        Some(c) => {
            if 200 <= c && c <= 299 {
                Ok(())
            } else {
                Err(CycleError::DashboardRejected { status_code: c })
            }
        },
    }
}

} // verus!
