//! Locks and reports as JSON: the schema of a lockfile and of a status file, their texts,
//! and the digest of a lock.

use vstd::prelude::*;

use crate::behavior::{Behavior, BehaviorView};
use crate::lock;
use crate::lock::BehaviorLock;
use crate::status;
use crate::status::{CheckStatus, GateStatus, Verdict};

verus! {

/// A JSON value.
pub enum Json {
    Flag(bool),
    Number(int),
    Text(Seq<char>),
    List(Seq<Json>),
    /// The fields in the order in which they are written.
    Object(Seq<(Seq<char>, Json)>),
}

// ---------------------------------------------------------------------------
// What is trusted
// ---------------------------------------------------------------------------

/// A JSON value of `serde_json`.
#[verifier::external_type_specification]
#[verifier::external_body]
pub struct ExValue(serde_json::Value);

/// A JSON object of `serde_json`.
#[verifier::external_type_specification]
#[verifier::external_body]
#[verifier::reject_recursive_types(K)]
#[verifier::reject_recursive_types(V)]
pub struct ExMap<K, V>(serde_json::Map<K, V>);

/// An error of `serde_json`.
#[verifier::external_type_specification]
#[verifier::external_body]
pub struct ExError(serde_json::Error);

/// What a `serde_json::Value` holds.
pub uninterp spec fn json_tree(value: serde_json::Value) -> Json;

/// The fields of a `serde_json::Map`, in the order in which they are written.
pub uninterp spec fn json_fields(map: serde_json::Map<String, serde_json::Value>) -> Seq<
    (Seq<char>, Json),
>;

/// The text that `serde_json::to_string_pretty` gives for a value.
pub uninterp spec fn json_pretty(tree: Json) -> Seq<char>;

/// The bytes that `serde_json::to_vec` gives for a value.
pub uninterp spec fn json_compact(tree: Json) -> Seq<u8>;

/// The BLAKE3 digest of some bytes in lowercase hexadecimal.
pub uninterp spec fn blake3_hex(bytes: Seq<u8>) -> Seq<char>;

/// A lowercase hexadecimal digit.
pub open spec fn is_hex_digit(c: char) -> bool {
    '0' <= c <= '9' || 'a' <= c <= 'f'
}

/// A digest in lowercase hexadecimal.
pub open spec fn is_digest(s: Seq<char>) -> bool {
    &&& s.len() == 64
    &&& forall|i: int| 0 <= i < s.len() ==> is_hex_digit(#[trigger] s[i])
}

/// What the values of a list hold.
pub open spec fn json_trees(values: Seq<serde_json::Value>) -> Seq<Json> {
    Seq::new(values.len(), |i: int| json_tree(values[i]))
}

/// The object has a field with the key.
pub open spec fn has_field(fields: Seq<(Seq<char>, Json)>, key: Seq<char>) -> bool {
    exists|i: int| 0 <= i < fields.len() && (#[trigger] fields[i]).0 == key
}

/// Wraps the variant `serde_json::Value::Bool`: the value holds the flag.
#[verifier::external_body]
fn flag_value(flag: bool) -> (r: serde_json::Value)
    ensures
        json_tree(r) == Json::Flag(flag),
{
    serde_json::Value::Bool(flag)
}

/// Wraps `serde_json::Value::from` on a `u32`: the value holds the number.
#[verifier::external_body]
fn number_value(number: u32) -> (r: serde_json::Value)
    ensures
        json_tree(r) == Json::Number(number as int),
{
    serde_json::Value::from(number)
}

/// Wraps `serde_json::Value::from` on an `i32`: the value holds the number.
#[verifier::external_body]
fn signed_value(number: i32) -> (r: serde_json::Value)
    ensures
        json_tree(r) == Json::Number(number as int),
{
    serde_json::Value::from(number)
}

/// Wraps `serde_json::Value::from` on a `usize`: the value holds the number.
#[verifier::external_body]
fn count_value(number: usize) -> (r: serde_json::Value)
    ensures
        json_tree(r) == Json::Number(number as int),
{
    serde_json::Value::from(number)
}

/// Wraps the variant `serde_json::Value::String`: the value holds the text.
#[verifier::external_body]
fn text_value(text: &str) -> (r: serde_json::Value)
    ensures
        json_tree(r) == Json::Text(text@),
{
    serde_json::Value::String(text.to_owned())
}

/// Wraps the variant `serde_json::Value::Array`: the value holds the values of the list
/// in their order.
#[verifier::external_body]
fn list_value(values: Vec<serde_json::Value>) -> (r: serde_json::Value)
    ensures
        json_tree(r) == Json::List(json_trees(values@)),
{
    serde_json::Value::Array(values)
}

/// Wraps the variant `serde_json::Value::Object`: the value holds the fields of the
/// map in their order.
#[verifier::external_body]
fn object_value(map: serde_json::Map<String, serde_json::Value>) -> (r: serde_json::Value)
    ensures
        json_tree(r) == Json::Object(json_fields(map)),
{
    serde_json::Value::Object(map)
}

/// Wraps `serde_json::Map::new`: the map has no field.
#[verifier::external_body]
fn new_map() -> (r: serde_json::Map<String, serde_json::Value>)
    ensures
        json_fields(r) == Seq::<(Seq<char>, Json)>::empty(),
{
    serde_json::Map::new()
}

/// Wraps `serde_json::Map::insert`, with the feature `preserve_order`, for a key that
/// the map does not have yet: the field comes after all others.
#[verifier::external_body]
fn add_field(
    map: &mut serde_json::Map<String, serde_json::Value>,
    key: &str,
    value: serde_json::Value,
)
    requires
        !has_field(json_fields(*old(map)), key@),
    ensures
        json_fields(*final(map)) == json_fields(*old(map)).push((key@, json_tree(value))),
{
    map.insert(key.to_owned(), value);
}

/// Wraps `serde_json::to_string_pretty` on a `serde_json::Value`: it succeeds, since
/// such a value has no key that is not a string and its `Serialize` does not fail, and
/// the text depends on what the value holds alone.
#[verifier::external_body]
fn pretty_text(value: &serde_json::Value) -> (r: Result<String, serde_json::Error>)
    ensures
        r is Ok,
        r->Ok_0@ == json_pretty(json_tree(*value)),
{
    serde_json::to_string_pretty(value)
}

/// Wraps `serde_json::to_vec` on a `serde_json::Value`: it succeeds, since such a
/// value has no key that is not a string and its `Serialize` does not fail, and the
/// bytes depend on what the value holds alone.
#[verifier::external_body]
fn compact_bytes(value: &serde_json::Value) -> (r: Result<Vec<u8>, serde_json::Error>)
    ensures
        r is Ok,
        r->Ok_0@ == json_compact(json_tree(*value)),
{
    serde_json::to_vec(value)
}

/// Wraps `blake3::hash` and the `to_hex` of its result: the digest depends on the bytes
/// alone and is written in lowercase hexadecimal, two digits for each of its 32 bytes.
#[verifier::external_body]
fn hash_hex(bytes: &[u8]) -> (r: String)
    ensures
        r@ == blake3_hex(bytes@),
        is_digest(r@),
{
    blake3::hash(bytes).to_hex().to_string()
}

// ---------------------------------------------------------------------------
// The schema
// ---------------------------------------------------------------------------

/// The name of a kind of behavior.
pub open spec fn kind_name(b: BehaviorView) -> Seq<char> {
    match b {
        BehaviorView::Exec { .. } => "exec"@,
        BehaviorView::FileRead { .. } => "file_read"@,
        BehaviorView::FileWrite { .. } => "file_write"@,
        BehaviorView::FileDelete { .. } => "file_delete"@,
        BehaviorView::FileRename { .. } => "file_rename"@,
        BehaviorView::RenameExchange { .. } => "rename_exchange"@,
        BehaviorView::DirectoryCreate { .. } => "directory_create"@,
        BehaviorView::DirectoryDelete { .. } => "directory_delete"@,
        BehaviorView::SymlinkCreate { .. } => "symlink_create"@,
        BehaviorView::HardlinkCreate { .. } => "hardlink_create"@,
        BehaviorView::NetworkConnect { .. } => "network_connect"@,
        BehaviorView::UnixConnect { .. } => "unix_connect"@,
        BehaviorView::UnixAbstractConnect { .. } => "unix_abstract_connect"@,
    }
}

/// The fields of a behavior beside its kind.
pub open spec fn detail_fields(b: BehaviorView) -> Seq<(Seq<char>, Json)> {
    match b {
        BehaviorView::Exec { path } => seq![("path"@, Json::Text(path))],
        BehaviorView::FileRead { path } => seq![("path"@, Json::Text(path))],
        BehaviorView::FileWrite { path } => seq![("path"@, Json::Text(path))],
        BehaviorView::FileDelete { path } => seq![("path"@, Json::Text(path))],
        BehaviorView::FileRename { from, to } => seq![
            ("from"@, Json::Text(from)),
            ("to"@, Json::Text(to)),
        ],
        BehaviorView::RenameExchange { left, right } => seq![
            ("left"@, Json::Text(left)),
            ("right"@, Json::Text(right)),
        ],
        BehaviorView::DirectoryCreate { path } => seq![("path"@, Json::Text(path))],
        BehaviorView::DirectoryDelete { path } => seq![("path"@, Json::Text(path))],
        BehaviorView::SymlinkCreate { target, link } => seq![
            ("target"@, Json::Text(target)),
            ("link"@, Json::Text(link)),
        ],
        BehaviorView::HardlinkCreate { from, to, follow_symlink, empty_path } => seq![
            ("from"@, Json::Text(from)),
            ("to"@, Json::Text(to)),
            ("follow_symlink"@, Json::Flag(follow_symlink)),
            ("empty_path"@, Json::Flag(empty_path)),
        ],
        BehaviorView::NetworkConnect { address } => seq![("address"@, Json::Text(address))],
        BehaviorView::UnixConnect { path } => seq![("path"@, Json::Text(path))],
        BehaviorView::UnixAbstractConnect { address } => seq![("address"@, Json::Text(address))],
    }
}

/// A behavior in a lockfile: its kind, then its other fields.
pub open spec fn behavior_tree(b: BehaviorView) -> Json {
    Json::Object(seq![("kind"@, Json::Text(kind_name(b)))] + detail_fields(b))
}

/// A lockfile: the schema version, then the behaviors in their order.
pub open spec fn lock_tree(version: u32, behaviors: Seq<BehaviorView>) -> Json {
    Json::Object(
        seq![
            ("version"@, Json::Number(version as int)),
            (
                "behaviors"@,
                Json::List(Seq::new(behaviors.len(), |i: int| behavior_tree(behaviors[i]))),
            ),
        ],
    )
}

/// The keys of one object are different.
proof fn lemma_keys()
    ensures
        "kind"@ != "path"@,
        "kind"@ != "address"@,
        "kind"@ != "from"@,
        "kind"@ != "to"@,
        "kind"@ != "left"@,
        "kind"@ != "right"@,
        "kind"@ != "target"@,
        "kind"@ != "link"@,
        "kind"@ != "follow_symlink"@,
        "kind"@ != "empty_path"@,
        "from"@ != "to"@,
        "left"@ != "right"@,
        "target"@ != "link"@,
        "from"@ != "follow_symlink"@,
        "from"@ != "empty_path"@,
        "to"@ != "follow_symlink"@,
        "to"@ != "empty_path"@,
        "follow_symlink"@ != "empty_path"@,
        "version"@ != "behaviors"@,
{
    reveal_strlit("kind");
    reveal_strlit("path");
    reveal_strlit("address");
    reveal_strlit("from");
    reveal_strlit("to");
    reveal_strlit("left");
    reveal_strlit("right");
    reveal_strlit("target");
    reveal_strlit("link");
    reveal_strlit("follow_symlink");
    reveal_strlit("empty_path");
    reveal_strlit("version");
    reveal_strlit("behaviors");
    assert("kind"@[0] == 'k');
    assert("path"@[0] == 'p');
    assert("from"@[0] == 'f');
    assert("left"@[0] == 'l');
    assert("link"@[0] == 'l');
    assert("to"@.len() == 2);
    assert("from"@.len() == 4);
    assert("follow_symlink"@.len() == 14);
    assert("empty_path"@.len() == 10);
    assert("version"@.len() == 7);
    assert("behaviors"@.len() == 9);
}

/// A field with a text.
fn add_text(
    map: &mut serde_json::Map<String, serde_json::Value>,
    key: &str,
    text: &str,
)
    requires
        !has_field(json_fields(*old(map)), key@),
    ensures
        json_fields(*final(map)) == json_fields(*old(map)).push((key@, Json::Text(text@))),
{
    add_field(map, key, text_value(text));
}

/// An object that has a kind and nothing else.
fn tagged(kind: &str) -> (r: serde_json::Map<String, serde_json::Value>)
    ensures
        json_fields(r) == seq![("kind"@, Json::Text(kind@))],
{
    let mut map = new_map();
    add_text(&mut map, "kind", kind);
    assert(json_fields(map) =~= seq![("kind"@, Json::Text(kind@))]);
    map
}

/// An object with a kind and one text.
fn with_text(kind: &str, key: &str, text: &str) -> (r: serde_json::Value)
    requires
        key@ != "kind"@,
    ensures
        json_tree(r) == Json::Object(
            seq![("kind"@, Json::Text(kind@))] + seq![(key@, Json::Text(text@))],
        ),
{
    let mut map = tagged(kind);
    add_text(&mut map, key, text);
    assert(json_fields(map) =~= seq![("kind"@, Json::Text(kind@))] + seq![
        (key@, Json::Text(text@)),
    ]);
    object_value(map)
}

/// The fields of an object with a kind and two texts.
fn two_texts(
    kind: &str,
    first_key: &str,
    first: &str,
    second_key: &str,
    second: &str,
) -> (r: serde_json::Map<String, serde_json::Value>)
    requires
        first_key@ != "kind"@,
        second_key@ != "kind"@,
        first_key@ != second_key@,
    ensures
        json_fields(r) == seq![("kind"@, Json::Text(kind@))] + seq![
            (first_key@, Json::Text(first@)),
            (second_key@, Json::Text(second@)),
        ],
{
    let mut map = tagged(kind);
    add_text(&mut map, first_key, first);
    add_text(&mut map, second_key, second);
    assert(json_fields(map) =~= seq![("kind"@, Json::Text(kind@))] + seq![
        (first_key@, Json::Text(first@)),
        (second_key@, Json::Text(second@)),
    ]);
    map
}

/// An object for a hard link.
fn hardlink_value(from: &str, to: &str, follow_symlink: bool, empty_path: bool) -> (r:
    serde_json::Value)
    ensures
        json_tree(r) == Json::Object(
            seq![("kind"@, Json::Text("hardlink_create"@))] + seq![
                ("from"@, Json::Text(from@)),
                ("to"@, Json::Text(to@)),
                ("follow_symlink"@, Json::Flag(follow_symlink)),
                ("empty_path"@, Json::Flag(empty_path)),
            ],
        ),
{
    proof {
        lemma_keys();
    }
    let mut map = two_texts("hardlink_create", "from", from, "to", to);
    add_field(&mut map, "follow_symlink", flag_value(follow_symlink));
    add_field(&mut map, "empty_path", flag_value(empty_path));
    assert(json_fields(map) =~= seq![("kind"@, Json::Text("hardlink_create"@))] + seq![
        ("from"@, Json::Text(from@)),
        ("to"@, Json::Text(to@)),
        ("follow_symlink"@, Json::Flag(follow_symlink)),
        ("empty_path"@, Json::Flag(empty_path)),
    ]);
    object_value(map)
}

/// A behavior as it stands in a lockfile.
pub fn behavior_value(b: &Behavior) -> (r: serde_json::Value)
    ensures
        json_tree(r) == behavior_tree(b@),
{
    proof {
        lemma_keys();
    }
    match b {
        Behavior::Exec { path } => with_text("exec", "path", path.as_str()),
        Behavior::FileRead { path } => with_text("file_read", "path", path.as_str()),
        Behavior::FileWrite { path } => with_text("file_write", "path", path.as_str()),
        Behavior::FileDelete { path } => with_text("file_delete", "path", path.as_str()),
        Behavior::FileRename { from, to } => object_value(
            two_texts("file_rename", "from", from.as_str(), "to", to.as_str()),
        ),
        Behavior::RenameExchange { left, right } => object_value(
            two_texts("rename_exchange", "left", left.as_str(), "right", right.as_str()),
        ),
        Behavior::DirectoryCreate { path } => with_text("directory_create", "path", path.as_str()),
        Behavior::DirectoryDelete { path } => with_text("directory_delete", "path", path.as_str()),
        Behavior::SymlinkCreate { target, link } => object_value(
            two_texts("symlink_create", "target", target.as_str(), "link", link.as_str()),
        ),
        Behavior::HardlinkCreate { from, to, follow_symlink, empty_path } => hardlink_value(
            from.as_str(),
            to.as_str(),
            *follow_symlink,
            *empty_path,
        ),
        Behavior::NetworkConnect { address } => with_text(
            "network_connect",
            "address",
            address.as_str(),
        ),
        Behavior::UnixConnect { path } => with_text("unix_connect", "path", path.as_str()),
        Behavior::UnixAbstractConnect { address } => with_text(
            "unix_abstract_connect",
            "address",
            address.as_str(),
        ),
    }
}

impl BehaviorLock {
    /// The lock as it stands in a lockfile.
    pub fn to_value(&self) -> (r: serde_json::Value)
        ensures
            json_tree(r) == lock_tree(self.version, self.behaviors@),
    {
        let items = self.behaviors.as_slice();
        let ghost all = self.behaviors@;
        let mut values: Vec<serde_json::Value> = Vec::new();
        let mut i: usize = 0;
        while i < items.len()
            invariant
                i <= items@.len(),
                all == lock::views(items@),
                json_trees(values@) == Seq::new(i as nat, |k: int| behavior_tree(all[k])),
            decreases items@.len() - i,
        {
            let ghost before = json_trees(values@);
            let value = behavior_value(&items[i]);
            assert(json_tree(value) == behavior_tree(all[i as int]));
            values.push(value);
            assert(json_trees(values@) =~= before.push(behavior_tree(all[i as int])));
            i = i + 1;
        }
        proof {
            lemma_keys();
        }
        let mut map = new_map();
        add_field(&mut map, "version", number_value(self.version));
        add_field(&mut map, "behaviors", list_value(values));
        assert(json_fields(map) =~= seq![
            ("version"@, Json::Number(self.version as int)),
            ("behaviors"@, Json::List(Seq::new(all.len(), |k: int| behavior_tree(all[k])))),
        ]);
        object_value(map)
    }

    /// The text of the lockfile.
    pub fn canonical_json(&self) -> (r: Result<String, serde_json::Error>)
        ensures
            r is Ok,
            r->Ok_0@ == json_pretty(lock_tree(self.version, self.behaviors@)),
    {
        pretty_text(&self.to_value())
    }

    /// The digest of the lock: the BLAKE3 digest of its compact JSON.
    pub fn digest(&self) -> (r: Result<String, serde_json::Error>)
        ensures
            r is Ok,
            r->Ok_0@ == blake3_hex(json_compact(lock_tree(self.version, self.behaviors@))),
            is_digest(r->Ok_0@),
    {
        match compact_bytes(&self.to_value()) {
            Ok(bytes) => Ok(hash_hex(bytes.as_slice())),
            Err(e) => Err(e),
        }
    }
}

// ---------------------------------------------------------------------------
// Status files
// ---------------------------------------------------------------------------

/// The fields that every status file begins with.
pub open spec fn status_fields(version: u32, verdict: Verdict, command_exit: i32) -> Seq<
    (Seq<char>, Json),
> {
    seq![
        ("version"@, Json::Number(version as int)),
        ("operation"@, Json::Text(status::operation_name(verdict))),
        ("verdict"@, Json::Text(status::verdict_name(verdict))),
        ("command_exit"@, Json::Number(command_exit as int)),
    ]
}

/// The status file of a check.
pub open spec fn check_tree(s: CheckStatus) -> Json {
    Json::Object(
        status_fields(s.version, s.verdict, s.command_exit) + seq![
            ("added"@, Json::Number(s.added as int)),
            ("removed"@, Json::Number(s.removed as int)),
        ],
    )
}

/// The status file of a gate.
pub open spec fn gate_tree(s: GateStatus) -> Json {
    Json::Object(
        status_fields(s.version, s.verdict, s.command_exit) + seq![
            ("violations"@, Json::Number(s.violations as int)),
        ],
    )
}

/// The keys of a status file are different.
proof fn lemma_status_keys()
    ensures
        "version"@ != "operation"@,
        "version"@ != "verdict"@,
        "version"@ != "command_exit"@,
        "version"@ != "added"@,
        "version"@ != "removed"@,
        "version"@ != "violations"@,
        "operation"@ != "verdict"@,
        "operation"@ != "command_exit"@,
        "operation"@ != "added"@,
        "operation"@ != "removed"@,
        "operation"@ != "violations"@,
        "verdict"@ != "command_exit"@,
        "verdict"@ != "added"@,
        "verdict"@ != "removed"@,
        "verdict"@ != "violations"@,
        "command_exit"@ != "added"@,
        "command_exit"@ != "removed"@,
        "command_exit"@ != "violations"@,
        "added"@ != "removed"@,
{
    reveal_strlit("version");
    reveal_strlit("operation");
    reveal_strlit("verdict");
    reveal_strlit("command_exit");
    reveal_strlit("added");
    reveal_strlit("removed");
    reveal_strlit("violations");
    assert("version"@.len() == 7 && "version"@[3] == 's');
    assert("operation"@.len() == 9);
    assert("verdict"@.len() == 7 && "verdict"@[0] == 'v' && "verdict"@[3] == 'd');
    assert("command_exit"@.len() == 12);
    assert("added"@.len() == 5);
    assert("removed"@.len() == 7 && "removed"@[0] == 'r');
    assert("violations"@.len() == 10);
    assert("version"@[0] == 'v');
}

/// The fields that every status file begins with.
fn status_map(version: u32, verdict: Verdict, command_exit: i32) -> (r: serde_json::Map<
    String,
    serde_json::Value,
>)
    ensures
        json_fields(r) == status_fields(version, verdict, command_exit),
{
    proof {
        lemma_status_keys();
    }
    let mut map = new_map();
    add_field(&mut map, "version", number_value(version));
    add_text(&mut map, "operation", verdict.operation());
    add_text(&mut map, "verdict", verdict.name());
    add_field(&mut map, "command_exit", signed_value(command_exit));
    assert(json_fields(map) =~= status_fields(version, verdict, command_exit));
    map
}

impl CheckStatus {
    /// The report as it stands in a status file.
    pub fn to_value(&self) -> (r: serde_json::Value)
        ensures
            json_tree(r) == check_tree(*self),
    {
        proof {
            lemma_status_keys();
        }
        let mut map = status_map(self.version, self.verdict, self.command_exit);
        add_field(&mut map, "added", count_value(self.added));
        add_field(&mut map, "removed", count_value(self.removed));
        assert(json_fields(map) =~= check_tree(*self)->Object_0);
        object_value(map)
    }

    /// The text of the status file.
    pub fn to_json(&self) -> (r: Result<String, serde_json::Error>)
        ensures
            r is Ok,
            r->Ok_0@ == json_pretty(check_tree(*self)),
    {
        pretty_text(&self.to_value())
    }
}

impl GateStatus {
    /// The report as it stands in a status file.
    pub fn to_value(&self) -> (r: serde_json::Value)
        ensures
            json_tree(r) == gate_tree(*self),
    {
        proof {
            lemma_status_keys();
        }
        let mut map = status_map(self.version, self.verdict, self.command_exit);
        add_field(&mut map, "violations", count_value(self.violations));
        assert(json_fields(map) =~= gate_tree(*self)->Object_0);
        object_value(map)
    }

    /// The text of the status file.
    pub fn to_json(&self) -> (r: Result<String, serde_json::Error>)
        ensures
            r is Ok,
            r->Ok_0@ == json_pretty(gate_tree(*self)),
    {
        pretty_text(&self.to_value())
    }
}

// ---------------------------------------------------------------------------
// Laws
// ---------------------------------------------------------------------------

/// The same behavior gives the same lockfile and the same digest, in whatever order and
/// however often it was observed.
pub proof fn law_same_behavior_same_lockfile(
    version: u32,
    a: Seq<BehaviorView>,
    b: Seq<BehaviorView>,
)
    requires
        lock::ordered(a),
        lock::ordered(b),
        a.to_set() == b.to_set(),
    ensures
        json_pretty(lock_tree(version, a)) == json_pretty(lock_tree(version, b)),
        blake3_hex(json_compact(lock_tree(version, a))) == blake3_hex(
            json_compact(lock_tree(version, b)),
        ),
{
    lock::law_order_is_canonical(a, b);
}

/// Behaviors of different kinds have different names for their kinds.
proof fn lemma_kind_names(a: BehaviorView, b: BehaviorView)
    requires
        kind_name(a) == kind_name(b),
    ensures
        crate::behavior::kind_rank(a) == crate::behavior::kind_rank(b),
{
    reveal_strlit("exec");
    reveal_strlit("file_read");
    reveal_strlit("file_write");
    reveal_strlit("file_delete");
    reveal_strlit("file_rename");
    reveal_strlit("rename_exchange");
    reveal_strlit("directory_create");
    reveal_strlit("directory_delete");
    reveal_strlit("symlink_create");
    reveal_strlit("hardlink_create");
    reveal_strlit("network_connect");
    reveal_strlit("unix_connect");
    reveal_strlit("unix_abstract_connect");
    assert("exec"@.len() == 4);
    assert("file_read"@.len() == 9);
    assert("file_write"@.len() == 10);
    assert("file_delete"@.len() == 11 && "file_delete"@[5] == 'd');
    assert("file_rename"@.len() == 11 && "file_rename"@[5] == 'r');
    assert("rename_exchange"@.len() == 15 && "rename_exchange"@[0] == 'r');
    assert("directory_create"@.len() == 16 && "directory_create"@[10] == 'c');
    assert("directory_delete"@.len() == 16 && "directory_delete"@[10] == 'd');
    assert("symlink_create"@.len() == 14);
    assert("hardlink_create"@.len() == 15 && "hardlink_create"@[0] == 'h');
    assert("network_connect"@.len() == 15 && "network_connect"@[0] == 'n');
    assert("unix_connect"@.len() == 12);
    assert("unix_abstract_connect"@.len() == 21);
}

/// The JSON of a behavior tells it apart from every other behavior.
pub proof fn law_json_tells_behaviors_apart(a: BehaviorView, b: BehaviorView)
    requires
        behavior_tree(a) == behavior_tree(b),
    ensures
        a == b,
{
    let x = seq![("kind"@, Json::Text(kind_name(a)))] + detail_fields(a);
    let y = seq![("kind"@, Json::Text(kind_name(b)))] + detail_fields(b);
    assert(behavior_tree(a)->Object_0 == x);
    assert(behavior_tree(b)->Object_0 == y);
    assert(x[0].1 == Json::Text(kind_name(a)));
    assert(y[0].1 == Json::Text(kind_name(b)));
    assert(x[0].1->Text_0 == kind_name(a));
    assert(y[0].1->Text_0 == kind_name(b));
    lemma_kind_names(a, b);
    assert(detail_fields(a) =~= x.skip(1));
    assert(detail_fields(b) =~= y.skip(1));
    let p = detail_fields(a);
    let q = detail_fields(b);
    assert(p == q);
    assert(p[0].1->Text_0 == q[0].1->Text_0);
    if p.len() > 1 {
        assert(p[1].1->Text_0 == q[1].1->Text_0);
    }
    if p.len() > 2 {
        assert(p[2].1->Flag_0 == q[2].1->Flag_0);
        assert(p[3].1->Flag_0 == q[3].1->Flag_0);
    }
}

/// The JSON of a lock tells it apart from every other lock: nothing that a lock holds is
/// left out of a lockfile.
pub proof fn law_json_tells_locks_apart(
    version: u32,
    a: Seq<BehaviorView>,
    other_version: u32,
    b: Seq<BehaviorView>,
)
    requires
        lock_tree(version, a) == lock_tree(other_version, b),
    ensures
        version == other_version,
        a == b,
{
    let x = lock_tree(version, a)->Object_0;
    let y = lock_tree(other_version, b)->Object_0;
    assert(x[0].1->Number_0 == version as int);
    assert(y[0].1->Number_0 == other_version as int);
    let p = x[1].1->List_0;
    let q = y[1].1->List_0;
    assert(p =~= Seq::new(a.len(), |i: int| behavior_tree(a[i])));
    assert(q =~= Seq::new(b.len(), |i: int| behavior_tree(b[i])));
    assert(p.len() == q.len());
    assert forall|i: int| 0 <= i < a.len() implies a[i] == b[i] by {
        assert(p[i] == q[i]);
        law_json_tells_behaviors_apart(a[i], b[i]);
    }
    assert(a =~= b);
}

/// The verdicts have different names.
proof fn lemma_verdict_names(a: Verdict, b: Verdict)
    requires
        status::verdict_name(a) == status::verdict_name(b),
    ensures
        a == b,
{
    reveal_strlit("unchanged");
    reveal_strlit("changed");
    reveal_strlit("allow");
    reveal_strlit("deny");
    assert("unchanged"@.len() == 9);
    assert("changed"@.len() == 7);
    assert("allow"@.len() == 5);
    assert("deny"@.len() == 4);
}

/// A status file tells the verdict and the exit code of the command apart: what differs
/// in the one or in the other, or in a count, differs in the file of a check.
pub proof fn law_check_reports_differ(a: CheckStatus, b: CheckStatus)
    requires
        check_tree(a) == check_tree(b),
    ensures
        a == b,
{
    let x = check_tree(a)->Object_0;
    let y = check_tree(b)->Object_0;
    assert(x[0].1->Number_0 == a.version && y[0].1->Number_0 == b.version);
    assert(x[2].1->Text_0 == status::verdict_name(a.verdict));
    assert(y[2].1->Text_0 == status::verdict_name(b.verdict));
    assert(x[3].1->Number_0 == a.command_exit && y[3].1->Number_0 == b.command_exit);
    assert(x[4].1->Number_0 == a.added && y[4].1->Number_0 == b.added);
    assert(x[5].1->Number_0 == a.removed && y[5].1->Number_0 == b.removed);
    lemma_verdict_names(a.verdict, b.verdict);
}

/// A status file tells the verdict and the exit code of the command apart: what differs
/// in the one or in the other, or in the count, differs in the file of a gate.
pub proof fn law_gate_reports_differ(a: GateStatus, b: GateStatus)
    requires
        gate_tree(a) == gate_tree(b),
    ensures
        a == b,
{
    let x = gate_tree(a)->Object_0;
    let y = gate_tree(b)->Object_0;
    assert(x[0].1->Number_0 == a.version && y[0].1->Number_0 == b.version);
    assert(x[2].1->Text_0 == status::verdict_name(a.verdict));
    assert(y[2].1->Text_0 == status::verdict_name(b.verdict));
    assert(x[3].1->Number_0 == a.command_exit && y[3].1->Number_0 == b.command_exit);
    assert(x[4].1->Number_0 == a.violations && y[4].1->Number_0 == b.violations);
    lemma_verdict_names(a.verdict, b.verdict);
}

/// The object that stands for a behavior on one path or address: its kind and that text.
pub proof fn law_objects_of_lone_names(name: Seq<char>)
    ensures
        ({
            let object = |kind: Seq<char>, key: Seq<char>|
                Json::Object(seq![("kind"@, Json::Text(kind)), (key, Json::Text(name))]);
            &&& behavior_tree(BehaviorView::Exec { path: name }) == object("exec"@, "path"@)
            &&& behavior_tree(BehaviorView::FileRead { path: name }) == object(
                "file_read"@,
                "path"@,
            )
            &&& behavior_tree(BehaviorView::FileWrite { path: name }) == object(
                "file_write"@,
                "path"@,
            )
            &&& behavior_tree(BehaviorView::FileDelete { path: name }) == object(
                "file_delete"@,
                "path"@,
            )
            &&& behavior_tree(BehaviorView::DirectoryCreate { path: name }) == object(
                "directory_create"@,
                "path"@,
            )
            &&& behavior_tree(BehaviorView::DirectoryDelete { path: name }) == object(
                "directory_delete"@,
                "path"@,
            )
            &&& behavior_tree(BehaviorView::NetworkConnect { address: name }) == object(
                "network_connect"@,
                "address"@,
            )
            &&& behavior_tree(BehaviorView::UnixConnect { path: name }) == object(
                "unix_connect"@,
                "path"@,
            )
            &&& behavior_tree(BehaviorView::UnixAbstractConnect { address: name }) == object(
                "unix_abstract_connect"@,
                "address"@,
            )
        }),
{
    lemma_one_detail("path"@, name, BehaviorView::Exec { path: name });
    lemma_one_detail("path"@, name, BehaviorView::FileRead { path: name });
    lemma_one_detail("path"@, name, BehaviorView::FileWrite { path: name });
    lemma_one_detail("path"@, name, BehaviorView::FileDelete { path: name });
    lemma_one_detail("path"@, name, BehaviorView::DirectoryCreate { path: name });
    lemma_one_detail("path"@, name, BehaviorView::DirectoryDelete { path: name });
    lemma_one_detail("address"@, name, BehaviorView::NetworkConnect { address: name });
    lemma_one_detail("path"@, name, BehaviorView::UnixConnect { path: name });
    lemma_one_detail("address"@, name, BehaviorView::UnixAbstractConnect { address: name });
}

/// An object with one field beside the kind.
proof fn lemma_one_detail(key: Seq<char>, name: Seq<char>, b: BehaviorView)
    requires
        detail_fields(b) == seq![(key, Json::Text(name))],
    ensures
        behavior_tree(b) == Json::Object(
            seq![("kind"@, Json::Text(kind_name(b))), (key, Json::Text(name))],
        ),
{
    assert(seq![("kind"@, Json::Text(kind_name(b)))] + detail_fields(b) =~= seq![
        ("kind"@, Json::Text(kind_name(b))),
        (key, Json::Text(name)),
    ]);
}

/// The object that stands for a behavior on two paths: its kind, the paths under their own
/// keys, and the flags of a hard link.
pub proof fn law_objects_of_pairs(
    first: Seq<char>,
    second: Seq<char>,
    follow_symlink: bool,
    empty_path: bool,
)
    ensures
        ({
            let object = |kind: Seq<char>, a: Seq<char>, b: Seq<char>|
                Json::Object(
                    seq![
                        ("kind"@, Json::Text(kind)),
                        (a, Json::Text(first)),
                        (b, Json::Text(second)),
                    ],
                );
            &&& behavior_tree(BehaviorView::FileRename { from: first, to: second }) == object(
                "file_rename"@,
                "from"@,
                "to"@,
            )
            &&& behavior_tree(BehaviorView::RenameExchange { left: first, right: second })
                == object("rename_exchange"@, "left"@, "right"@)
            &&& behavior_tree(BehaviorView::SymlinkCreate { target: first, link: second })
                == object("symlink_create"@, "target"@, "link"@)
            &&& behavior_tree(
                BehaviorView::HardlinkCreate {
                    from: first,
                    to: second,
                    follow_symlink,
                    empty_path,
                },
            ) == Json::Object(
                seq![
                    ("kind"@, Json::Text("hardlink_create"@)),
                    ("from"@, Json::Text(first)),
                    ("to"@, Json::Text(second)),
                    ("follow_symlink"@, Json::Flag(follow_symlink)),
                    ("empty_path"@, Json::Flag(empty_path)),
                ],
            )
        }),
{
    lemma_two_details("from"@, "to"@, first, second, BehaviorView::FileRename {
        from: first,
        to: second,
    });
    lemma_two_details("left"@, "right"@, first, second, BehaviorView::RenameExchange {
        left: first,
        right: second,
    });
    lemma_two_details("target"@, "link"@, first, second, BehaviorView::SymlinkCreate {
        target: first,
        link: second,
    });
    let hard = BehaviorView::HardlinkCreate { from: first, to: second, follow_symlink, empty_path };
    assert(behavior_tree(hard)->Object_0 =~= seq![
        ("kind"@, Json::Text("hardlink_create"@)),
        ("from"@, Json::Text(first)),
        ("to"@, Json::Text(second)),
        ("follow_symlink"@, Json::Flag(follow_symlink)),
        ("empty_path"@, Json::Flag(empty_path)),
    ]);
}

/// An object with two fields beside the kind.
proof fn lemma_two_details(
    a: Seq<char>,
    b: Seq<char>,
    first: Seq<char>,
    second: Seq<char>,
    act: BehaviorView,
)
    requires
        detail_fields(act) == seq![(a, Json::Text(first)), (b, Json::Text(second))],
    ensures
        behavior_tree(act) == Json::Object(
            seq![
                ("kind"@, Json::Text(kind_name(act))),
                (a, Json::Text(first)),
                (b, Json::Text(second)),
            ],
        ),
{
    assert(seq![("kind"@, Json::Text(kind_name(act)))] + detail_fields(act) =~= seq![
        ("kind"@, Json::Text(kind_name(act))),
        (a, Json::Text(first)),
        (b, Json::Text(second)),
    ]);
}

/// A lockfile holds its version and, in their order, the objects of all its behaviors, and
/// nothing else.
pub proof fn law_what_a_lockfile_holds(version: u32, behaviors: Seq<BehaviorView>, i: int)
    requires
        0 <= i < behaviors.len(),
    ensures
        ({
            let fields = lock_tree(version, behaviors)->Object_0;
            &&& lock_tree(version, behaviors) is Object
            &&& fields.len() == 2
            &&& fields[0] == ("version"@, Json::Number(version as int))
            &&& fields[1].0 == "behaviors"@
            &&& fields[1].1 is List
            &&& fields[1].1->List_0.len() == behaviors.len()
            &&& fields[1].1->List_0[i] == behavior_tree(behaviors[i])
        }),
{
}

/// A status file holds its version, the words for its operation and its verdict, the exit
/// code of the command and the counts of its operation, in that order and nothing else.
pub proof fn law_what_a_status_file_holds(check: CheckStatus, gate: GateStatus)
    ensures
        check_tree(check) == Json::Object(
            seq![
                ("version"@, Json::Number(check.version as int)),
                ("operation"@, Json::Text(status::operation_name(check.verdict))),
                ("verdict"@, Json::Text(status::verdict_name(check.verdict))),
                ("command_exit"@, Json::Number(check.command_exit as int)),
                ("added"@, Json::Number(check.added as int)),
                ("removed"@, Json::Number(check.removed as int)),
            ],
        ),
        gate_tree(gate) == Json::Object(
            seq![
                ("version"@, Json::Number(gate.version as int)),
                ("operation"@, Json::Text(status::operation_name(gate.verdict))),
                ("verdict"@, Json::Text(status::verdict_name(gate.verdict))),
                ("command_exit"@, Json::Number(gate.command_exit as int)),
                ("violations"@, Json::Number(gate.violations as int)),
            ],
        ),
{
    assert(check_tree(check)->Object_0 =~= seq![
        ("version"@, Json::Number(check.version as int)),
        ("operation"@, Json::Text(status::operation_name(check.verdict))),
        ("verdict"@, Json::Text(status::verdict_name(check.verdict))),
        ("command_exit"@, Json::Number(check.command_exit as int)),
        ("added"@, Json::Number(check.added as int)),
        ("removed"@, Json::Number(check.removed as int)),
    ]);
    assert(gate_tree(gate)->Object_0 =~= seq![
        ("version"@, Json::Number(gate.version as int)),
        ("operation"@, Json::Text(status::operation_name(gate.verdict))),
        ("verdict"@, Json::Text(status::verdict_name(gate.verdict))),
        ("command_exit"@, Json::Number(gate.command_exit as int)),
        ("violations"@, Json::Number(gate.violations as int)),
    ]);
}

} // verus!
