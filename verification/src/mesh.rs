//! The mesh data canvas: artifacts are produced, consumed, snapshotted and
//! patched; schemas are registered and checked; artifacts are indexed,
//! garbage-collected and replicated between stores.
//!
//! Every write is recorded in the action log and queued as a notification
//! for subscribers.

use vstd::prelude::*;
use vstd::string::*;
use crate::action_log::{ActionLog, EventType, appended_one, now_ms};
use crate::ids::{ArtifactId, DimensionId, TaskId};
use crate::idmap::{IdMap, seq_keys, marked, lemma_marked_contains, keys_sorted, seq_to_map, key_index, lemma_key_index};
use crate::json::{JsonModel, JsonValue, lemma_items_models, lemma_members_models, uuid_text};
use crate::text::{chars_of, lemma_decimal_digits, parse_u32, parse_u32_spec, decimal, decimal_string, str_eq, blank, is_blank,
    seq_lt, str_lt, lemma_seq_lt_irreflexive, lemma_seq_lt_transitive, lemma_seq_lt_total};

verus! {

/// Errors of mesh operations.
#[derive(Debug)]
#[allow(inconsistent_fields)]
pub enum MeshError {
    /// The artifact is not in the store.
    NotFound(ArtifactId),
    /// The artifact was consumed already.
    AlreadyConsumed(ArtifactId),
    /// The schema version text is malformed.
    InvalidSchemaVersion(String),
    /// No schema of that content type and version is registered.
    SchemaNotRegistered { content_type: String, version: String },
    /// Another version of the schema's major line is registered.
    SchemaVersionMismatch { content_type: String, expected: String, actual: String },
    /// The node was edited concurrently.
    ConcurrentEdit { node_id: u128, expected: u64, current: u64 },
    /// Artifacts of a batch differ in a shared field.
    BatchMismatch { field: &'static str },
    /// A batch holds no artifact.
    EmptyBatch,
    /// The artifact exists in the store already.
    AlreadyExists(ArtifactId),
}

// ---------------------------------------------------------------------------
// Schema versions
// ---------------------------------------------------------------------------

/// A `MAJOR.MINOR.PATCH` schema version, ordered by major, minor, patch.
#[derive(Clone, Copy, Debug, PartialEq, Eq, Structural, Hash, PartialOrd, Ord)]
pub struct SchemaVersion {
    /// Major version.
    pub major: u32,
    /// Minor version.
    pub minor: u32,
    /// Patch version.
    pub patch: u32,
}

/// `a` comes before `b`: by major, then minor, then patch.
pub open spec fn version_lt(a: SchemaVersion, b: SchemaVersion) -> bool {
    a.major < b.major || (a.major == b.major && (a.minor < b.minor || (a.minor == b.minor && a.patch < b.patch)))
}

/// `i` and `j` are the positions of the only two dots of `s`.
pub open spec fn two_dots_at(s: Seq<char>, i: int, j: int) -> bool {
    &&& 0 <= i < j < s.len()
    &&& s[i] == '.' && s[j] == '.'
    &&& forall|k: int| 0 <= k < s.len() && k != i && k != j ==> s[k] != '.'
}

/// What parsing `MAJOR.MINOR.PATCH` gives: the text splits at its dots into
/// exactly three parts, each of which `str::parse::<u32>` accepts.
pub open spec fn parse_version_spec(s: Seq<char>) -> Option<SchemaVersion> {
    if exists|i: int, j: int| two_dots_at(s, i, j) {
        let (i, j) = choose|i: int, j: int| two_dots_at(s, i, j);
        match (parse_u32_spec(s.subrange(0, i)), parse_u32_spec(s.subrange(i + 1, j)), parse_u32_spec(s.subrange(j + 1, s.len() as int))) {
            (Some(a), Some(b), Some(c)) => Some(SchemaVersion { major: a, minor: b, patch: c }),
            _ => None,
        }
    } else {
        None
    }
}

/// The text of a version: `MAJOR.MINOR.PATCH` in decimal.
pub open spec fn version_text(v: SchemaVersion) -> Seq<char> {
    decimal(v.major as nat) + seq!['.'] + decimal(v.minor as nat) + seq!['.'] + decimal(v.patch as nat)
}

/// Parsing the text of a version gives that version back.
pub proof fn lemma_version_text_parses(v: SchemaVersion)
    ensures
        parse_version_spec(version_text(v)) == Some(v),
{
    let a = decimal(v.major as nat);
    let b = decimal(v.minor as nat);
    let c = decimal(v.patch as nat);
    lemma_decimal_digits(v.major as nat);
    lemma_decimal_digits(v.minor as nat);
    lemma_decimal_digits(v.patch as nat);
    let s = version_text(v);
    assert(s == a + seq!['.'] + b + seq!['.'] + c);
    let i = a.len() as int;
    let j = (a.len() + 1 + b.len()) as int;
    assert forall|k: int| 0 <= k < s.len() && k != i && k != j implies s[k] != '.' by {
        if k < i {
            assert(s[k] == a[k]);
        } else if k < j {
            assert(s[k] == b[k - i - 1]);
        } else {
            assert(s[k] == c[k - j - 1]);
        }
    }
    assert(s[i] == '.' && s[j] == '.');
    assert(two_dots_at(s, i, j));
    let (i2, j2) = choose|i2: int, j2: int| two_dots_at(s, i2, j2);
    assert(i2 == i && j2 == j) by {
        assert(two_dots_at(s, i2, j2));
        if i2 != i && j2 != i {
            assert(s[i] != '.');
        }
        if i2 != j && j2 != j {
            assert(s[j] != '.');
        }
    }
    assert(s.subrange(0, i) =~= a);
    assert(s.subrange(i + 1, j) =~= b);
    assert(s.subrange(j + 1, s.len() as int) =~= c);
    assert(a[0] != '+' && b[0] != '+' && c[0] != '+');
}

impl SchemaVersion {
    /// Parse `MAJOR.MINOR.PATCH`.
    pub fn parse(value: &str) -> (r: Result<Self, MeshError>)
        ensures
            r is Ok <==> parse_version_spec(value@) is Some,
            r matches Ok(v) ==> Some(v) == parse_version_spec(value@),
            r matches Err(e) ==> e matches MeshError::InvalidSchemaVersion(t) && t@ == value@,
    {
        let cs = chars_of(value);
        let n = cs.len();
        let mut dots: Vec<usize> = Vec::new();
        for k in 0..n
            invariant
                n == cs@.len(),
                cs@ == value@,
                forall|a: int| 0 <= a < dots@.len() ==> (#[trigger] dots@[a]) < k && cs@[dots@[a] as int] == '.',
                forall|a: int, b: int| 0 <= a < b < dots@.len() ==> dots@[a] < dots@[b],
                forall|m: int| 0 <= m < k && cs@[m] == '.' ==> exists|a: int| 0 <= a < dots@.len() && dots@[a] == m,
        {
            let ghost before = dots@;
            if cs[k] == '.' {
                dots.push(k);
            }
            proof {
                assert forall|m: int| 0 <= m < k + 1 && cs@[m] == '.' implies exists|a: int| 0 <= a < dots@.len() && dots@[a] == m by {
                    if m == k {
                        assert(dots@[dots@.len() - 1] == m);
                    } else {
                        let a = choose|a: int| 0 <= a < before.len() && before[a] == m;
                        assert(dots@[a] == before[a]);
                    }
                }
            }
        }
        if dots.len() != 2 {
            proof {
                if exists|i: int, j: int| two_dots_at(value@, i, j) {
                    let (i, j) = choose|i: int, j: int| two_dots_at(value@, i, j);
                    let a = choose|a: int| 0 <= a < dots@.len() && dots@[a] == i;
                    let b = choose|b: int| 0 <= b < dots@.len() && dots@[b] == j;
                    assert(a != b);
                    if dots@.len() > 2 {
                        let c = if a != 0 && b != 0 { 0int } else if a != 1 && b != 1 { 1int } else { 2int };
                        assert(cs@[dots@[c] as int] == '.');
                        assert(dots@[c] != i && dots@[c] != j);
                    }
                }
            }
            return Err(MeshError::InvalidSchemaVersion(value.to_owned()));
        }
        let i = dots[0];
        let j = dots[1];
        proof {
            assert(two_dots_at(value@, i as int, j as int)) by {
                assert forall|k: int| 0 <= k < value@.len() && k != i && k != j implies value@[k] != '.' by {
                    if value@[k] == '.' {
                        let a = choose|a: int| 0 <= a < dots@.len() && dots@[a] == k;
                    }
                }
            }
            let (i2, j2) = choose|i2: int, j2: int| two_dots_at(value@, i2, j2);
            assert(value@[i2] == '.');
            assert(value@[j2] == '.');
            if i2 != i as int && i2 != j as int {
            }
            if j2 != i as int && j2 != j as int {
            }
            assert(i2 == i as int && j2 == j as int);
        }
        let major = parse_u32(&cs, 0, i);
        let minor = parse_u32(&cs, i + 1, j);
        let patch = parse_u32(&cs, j + 1, n);
        match (major, minor, patch) {
            (Some(a), Some(b), Some(c)) => Ok(SchemaVersion { major: a, minor: b, patch: c }),
            _ => Err(MeshError::InvalidSchemaVersion(value.to_owned())),
        }
    }

    /// The text `MAJOR.MINOR.PATCH`.
    pub fn to_string(&self) -> (r: String)
        ensures
            r@ == version_text(*self),
    {
        let mut s = decimal_string(self.major);
        s.append(".");
        let minor = decimal_string(self.minor);
        s.append(minor.as_str());
        s.append(".");
        let patch = decimal_string(self.patch);
        s.append(patch.as_str());
        proof {
            reveal_strlit(".");
        }
        s
    }

    /// Whether `self` comes before `other`.
    pub fn lt(&self, other: &SchemaVersion) -> (r: bool)
        ensures
            r == version_lt(*self, *other),
    {
        self.major < other.major || (self.major == other.major && (self.minor < other.minor
            || (self.minor == other.minor && self.patch < other.patch)))
    }
}

// ---------------------------------------------------------------------------
// Schema registry
// ---------------------------------------------------------------------------

/// A registered artifact schema.
#[derive(Debug)]
pub struct SchemaDefinition {
    /// Content type the schema applies to.
    pub content_type: String,
    /// Version.
    pub version: SchemaVersion,
    /// Description.
    pub description: String,
    /// Registration time, Unix epoch milliseconds.
    pub registered_at_ms: u64,
}

impl Clone for SchemaDefinition {
    fn clone(&self) -> (r: Self)
        ensures
            r == *self,
    {
        SchemaDefinition {
            content_type: self.content_type.clone(),
            version: self.version,
            description: self.description.clone(),
            registered_at_ms: self.registered_at_ms,
        }
    }
}

/// The definition registered for `ct` and `v` among `defs`, if any.
pub open spec fn def_for(defs: Seq<SchemaDefinition>, ct: Seq<char>, v: SchemaVersion) -> Option<SchemaDefinition> {
    if exists|i: int| 0 <= i < defs.len() && defs[i].content_type@ == ct && defs[i].version == v {
        Some(defs[choose|i: int| 0 <= i < defs.len() && defs[i].content_type@ == ct && defs[i].version == v])
    } else {
        None
    }
}

/// `after` is `before` with `d` registered: a lookup of its content type
/// and version finds it, and every other lookup is unchanged.
pub open spec fn registers(before: Seq<SchemaDefinition>, after: Seq<SchemaDefinition>, d: SchemaDefinition) -> bool {
    &&& def_for(after, d.content_type@, d.version) == Some(d)
    &&& forall|ct: Seq<char>, v: SchemaVersion| !(ct == d.content_type@ && v == d.version)
        ==> #[trigger] def_for(after, ct, v) == def_for(before, ct, v)
}

/// The last of `ds` with content type `ct` and version `v`.
pub open spec fn last_registered(ds: Seq<SchemaDefinition>, ct: Seq<char>, v: SchemaVersion) -> Option<SchemaDefinition>
    decreases ds.len(),
{
    if ds.len() == 0 {
        None
    } else if ds.last().content_type@ == ct && ds.last().version == v {
        Some(ds.last())
    } else {
        last_registered(ds.drop_last(), ct, v)
    }
}

/// After a run of registrations, `states[i + 1]` being `states[i]` with
/// `ds[i]` registered, a lookup finds the last definition registered for
/// its content type and version, or, when there was none, what the registry
/// held before the run.
pub proof fn lemma_lookup_after_registrations(states: Seq<Seq<SchemaDefinition>>, ds: Seq<SchemaDefinition>,
    ct: Seq<char>, v: SchemaVersion)
    requires
        states.len() == ds.len() + 1,
        forall|i: int| 0 <= i < ds.len() ==> registers(#[trigger] states[i], states[i + 1], ds[i]),
    ensures
        def_for(states.last(), ct, v) == match last_registered(ds, ct, v) {
            Some(d) => Some(d),
            None => def_for(states[0], ct, v),
        },
    decreases ds.len(),
{
    if ds.len() > 0 {
        let n = ds.len() - 1;
        let s2 = states.drop_last();
        assert forall|i: int| 0 <= i < ds.drop_last().len() implies registers(#[trigger] s2[i], s2[i + 1], ds.drop_last()[i]) by {
            assert(registers(states[i], states[i + 1], ds[i]));
        }
        lemma_lookup_after_registrations(s2, ds.drop_last(), ct, v);
        assert(registers(states[n], states[n + 1], ds[n]));
        assert(states.last() == states[n + 1]);
        assert(s2.last() == states[n]);
        assert(ds.last() == ds[n]);
    }
}

/// `ds[i]` has content type `ct` and version `v`, and no later definition
/// of `ds` has both.
pub open spec fn registered_last_at(ds: Seq<SchemaDefinition>, ct: Seq<char>, v: SchemaVersion, i: int) -> bool {
    &&& 0 <= i < ds.len()
    &&& ds[i].content_type@ == ct && ds[i].version == v
    &&& forall|j: int| i < j < ds.len() ==> !(#[trigger] ds[j].content_type@ == ct && ds[j].version == v)
}

/// The last registration of a content type and version is the one
/// `last_registered` names; with none, it names nothing.
proof fn lemma_last_registered_at(ds: Seq<SchemaDefinition>, ct: Seq<char>, v: SchemaVersion)
    ensures
        forall|i: int| #[trigger] registered_last_at(ds, ct, v, i) ==> last_registered(ds, ct, v) == Some(ds[i]),
        (forall|i: int| 0 <= i < ds.len() ==> !(#[trigger] ds[i].content_type@ == ct && ds[i].version == v))
            ==> last_registered(ds, ct, v) is None,
    decreases ds.len(),
{
    if ds.len() > 0 {
        let q = ds.drop_last();
        lemma_last_registered_at(q, ct, v);
        assert forall|i: int| #[trigger] registered_last_at(ds, ct, v, i) implies last_registered(ds, ct, v) == Some(ds[i]) by {
            if i < ds.len() - 1 {
                assert(!(ds[ds.len() - 1].content_type@ == ct && ds[ds.len() - 1].version == v));
                assert(registered_last_at(q, ct, v, i)) by {
                    assert forall|j: int| i < j < q.len() implies !(#[trigger] q[j].content_type@ == ct && q[j].version == v) by {
                        assert(q[j] == ds[j]);
                    }
                }
            }
        }
        if forall|i: int| 0 <= i < ds.len() ==> !(#[trigger] ds[i].content_type@ == ct && ds[i].version == v) {
            assert(!(ds[ds.len() - 1].content_type@ == ct && ds[ds.len() - 1].version == v));
            assert forall|i: int| 0 <= i < q.len() implies !(#[trigger] q[i].content_type@ == ct && q[i].version == v) by {
                assert(q[i] == ds[i]);
            }
        }
    }
}

/// In a registry that started empty, after a run of registrations
/// (`states[i + 1]` being `states[i]` with `ds[i]` registered), a lookup of a
/// content type and version finds the definition registered last for them,
/// and finds nothing when none was registered.
pub proof fn lemma_lookup_from_empty(states: Seq<Seq<SchemaDefinition>>, ds: Seq<SchemaDefinition>,
    ct: Seq<char>, v: SchemaVersion)
    requires
        states.len() == ds.len() + 1,
        states[0] == Seq::<SchemaDefinition>::empty(),
        forall|i: int| 0 <= i < ds.len() ==> registers(#[trigger] states[i], states[i + 1], ds[i]),
    ensures
        def_for(states.last(), ct, v) == last_registered(ds, ct, v),
        forall|i: int| #[trigger] registered_last_at(ds, ct, v, i) ==> def_for(states.last(), ct, v) == Some(ds[i]),
        (forall|i: int| 0 <= i < ds.len() ==> !(#[trigger] ds[i].content_type@ == ct && ds[i].version == v))
            ==> def_for(states.last(), ct, v) is None,
{
    lemma_lookup_after_registrations(states, ds, ct, v);
    lemma_last_registered_at(ds, ct, v);
}

/// Some definition of `ct` is registered.
pub open spec fn has_content_type(defs: Seq<SchemaDefinition>, ct: Seq<char>) -> bool {
    exists|i: int| 0 <= i < defs.len() && defs[i].content_type@ == ct
}

/// `v` is the greatest registered version of `ct` with major `major`.
pub open spec fn latest_of_major(defs: Seq<SchemaDefinition>, ct: Seq<char>, major: u32, v: SchemaVersion) -> bool {
    &&& v.major == major
    &&& def_for(defs, ct, v) is Some
    &&& forall|i: int| 0 <= i < defs.len() && defs[i].content_type@ == ct && defs[i].version.major == major
        ==> !version_lt(v, #[trigger] defs[i].version)
}

/// Schemas keyed by content type and version.
#[derive(Debug)]
pub struct MeshSchemaRegistry {
    schemas: Vec<SchemaDefinition>,
}

impl MeshSchemaRegistry {
    /// A content type and version are registered at most once.
    #[verifier::type_invariant]
    spec fn distinct(&self) -> bool {
        forall|i: int, j: int| 0 <= i < j < self.schemas@.len()
            ==> !(self.schemas@[i].content_type@ == self.schemas@[j].content_type@ && self.schemas@[i].version == self.schemas@[j].version)
    }

    /// The registered definitions.
    pub closed spec fn spec_defs(&self) -> Seq<SchemaDefinition> {
        self.schemas@
    }

    /// An empty registry.
    pub fn new() -> (r: Self)
        ensures
            r.spec_defs() == Seq::<SchemaDefinition>::empty(),
    {
        MeshSchemaRegistry { schemas: Vec::new() }
    }

    fn find(&self, ct: &str, v: &SchemaVersion) -> (r: Option<usize>)
        ensures
            r matches Some(i) ==> i < self.schemas@.len() && self.schemas@[i as int].content_type@ == ct@
                && self.schemas@[i as int].version == *v && def_for(self.schemas@, ct@, *v) == Some(self.schemas@[i as int]),
            r is None <==> def_for(self.schemas@, ct@, *v) is None,
    {
        proof {
            use_type_invariant(self);
        }
        let n = self.schemas.len();
        for i in 0..n
            invariant
                n == self.schemas@.len(),
                forall|a: int, b: int| 0 <= a < b < self.schemas@.len()
                    ==> !(self.schemas@[a].content_type@ == self.schemas@[b].content_type@ && self.schemas@[a].version == self.schemas@[b].version),
                forall|j: int| 0 <= j < i ==> !(self.schemas@[j].content_type@ == ct@ && self.schemas@[j].version == *v),
        {
            if self.schemas[i].version == *v && str_eq(self.schemas[i].content_type.as_str(), ct) {
                proof {
                    let k = choose|k: int| 0 <= k < self.schemas@.len() && self.schemas@[k].content_type@ == ct@ && self.schemas@[k].version == *v;
                    if k != i as int {
                        assert(k < i ==> !(self.schemas@[k].content_type@ == self.schemas@[i as int].content_type@
                            && self.schemas@[k].version == self.schemas@[i as int].version));
                    }
                }
                return Some(i);
            }
        }
        None
    }

    /// Register a schema (replacing the same content type and version);
    /// `InvalidSchemaVersion` when the version text does not parse.
    pub fn register_schema(&mut self, content_type: &str, version: &str, description: &str) -> (r: Result<SchemaDefinition, MeshError>)
        ensures
            r is Ok <==> parse_version_spec(version@) is Some,
            r matches Err(e) ==> e matches MeshError::InvalidSchemaVersion(t) && t@ == version@
                && final(self).spec_defs() == old(self).spec_defs(),
            r matches Ok(d) ==> {
                &&& d.content_type@ == content_type@
                &&& Some(d.version) == parse_version_spec(version@)
                &&& d.description@ == description@
                &&& registers(old(self).spec_defs(), final(self).spec_defs(), d)
            },
    {
        proof {
            use_type_invariant(&*self);
        }
        let v = SchemaVersion::parse(version)?;
        let def = SchemaDefinition {
            content_type: content_type.to_owned(),
            version: v,
            description: description.to_owned(),
            registered_at_ms: now_ms(),
        };
        let ghost s = self.schemas@;
        let found = self.find(content_type, &v);
        let copy = def.clone();
        let mut schemas: Vec<SchemaDefinition> = Vec::new();
        std::mem::swap(&mut schemas, &mut self.schemas);
        match found {
            Some(i) => {
                schemas.set(i, def);
            },
            None => {
                schemas.push(def);
            },
        }
        proof {
            let t = schemas@;
            let p = if found is Some { found->0 as int } else { s.len() as int };
            assert(t[p] == copy);
            assert forall|a: int, b: int| 0 <= a < b < t.len() implies
                !(t[a].content_type@ == t[b].content_type@ && t[a].version == t[b].version) by {
                if a != p && b != p {
                    assert(t[a] == s[a] && t[b] == s[b]);
                } else if a == p {
                    assert(t[b] == s[b]);
                    if b < s.len() && found is Some {
                        assert(s[a].content_type@ == content_type@ && s[a].version == v);
                    } else if found is None {
                        assert(def_for(s, content_type@, v) is None);
                    }
                } else {
                    assert(t[a] == s[a]);
                    if found is Some {
                        assert(s[b].content_type@ == content_type@ && s[b].version == v);
                    } else {
                        assert(def_for(s, content_type@, v) is None);
                    }
                }
            }
            assert(def_for(t, content_type@, v) == Some(copy)) by {
                let k = choose|k: int| 0 <= k < t.len() && t[k].content_type@ == content_type@ && t[k].version == v;
                if k != p {
                    assert(k < p ==> !(t[k].content_type@ == t[p].content_type@ && t[k].version == t[p].version));
                    assert(p < k ==> !(t[p].content_type@ == t[k].content_type@ && t[p].version == t[k].version));
                }
            }
            assert forall|ct: Seq<char>, w: SchemaVersion| !(ct == content_type@ && w == v)
                implies def_for(t, ct, w) == def_for(s, ct, w) by {
                if exists|k: int| 0 <= k < s.len() && s[k].content_type@ == ct && s[k].version == w {
                    let k = choose|k: int| 0 <= k < s.len() && s[k].content_type@ == ct && s[k].version == w;
                    assert(k != p);
                    assert(t[k] == s[k]);
                    let k2 = choose|k2: int| 0 <= k2 < t.len() && t[k2].content_type@ == ct && t[k2].version == w;
                    if k2 != k {
                        assert(k2 != p);
                        assert(t[k2] == s[k2]);
                        assert(k < k2 ==> !(s[k].content_type@ == s[k2].content_type@ && s[k].version == s[k2].version));
                        assert(k2 < k ==> !(s[k2].content_type@ == s[k].content_type@ && s[k2].version == s[k].version));
                    }
                }
                if exists|k: int| 0 <= k < t.len() && t[k].content_type@ == ct && t[k].version == w {
                    let k = choose|k: int| 0 <= k < t.len() && t[k].content_type@ == ct && t[k].version == w;
                    assert(k != p);
                    assert(t[k] == s[k]);
                }
            }
        }
        self.schemas = schemas;
        Ok(copy)
    }

    /// The definition registered for `content_type` and `version`.
    pub fn schema(&self, content_type: &str, version: &SchemaVersion) -> (r: Option<&SchemaDefinition>)
        ensures
            r is Some <==> def_for(self.spec_defs(), content_type@, *version) is Some,
            r matches Some(d) ==> Some(*d) == def_for(self.spec_defs(), content_type@, *version),
    {
        match self.find(content_type, version) {
            Some(i) => Some(&self.schemas[i]),
            None => None,
        }
    }

    /// Check that `version` of `content_type` is registered: when it is not
    /// but another version of its major line is, the greatest such version
    /// is reported as expected.
    pub fn validate(&self, content_type: &str, version: &SchemaVersion) -> (r: Result<(), MeshError>)
        ensures
            r is Ok <==> def_for(self.spec_defs(), content_type@, *version) is Some,
            r matches Err(e) ==> match e {
                MeshError::SchemaVersionMismatch { content_type: ct, expected, actual } => {
                    &&& ct@ == content_type@
                    &&& actual@ == version_text(*version)
                    &&& exists|w: SchemaVersion| latest_of_major(self.spec_defs(), content_type@, version.major, w)
                        && expected@ == version_text(w)
                },
                MeshError::SchemaNotRegistered { content_type: ct, version: vt } => {
                    &&& ct@ == content_type@
                    &&& vt@ == version_text(*version)
                    &&& forall|i: int| 0 <= i < self.spec_defs().len() && self.spec_defs()[i].content_type@ == content_type@
                        ==> (#[trigger] self.spec_defs()[i]).version.major != version.major
                },
                _ => false,
            },
    {
        if self.find(content_type, version).is_some() {
            return Ok(());
        }
        let n = self.schemas.len();
        let mut best: Option<SchemaVersion> = None;
        for i in 0..n
            invariant
                n == self.schemas@.len(),
                def_for(self.schemas@, content_type@, *version) is None,
                match best {
                    Some(w) => w.major == version.major && def_for(self.schemas@, content_type@, w) is Some
                        && forall|j: int| 0 <= j < i && self.schemas@[j].content_type@ == content_type@
                            && self.schemas@[j].version.major == version.major ==> !version_lt(w, #[trigger] self.schemas@[j].version),
                    None => forall|j: int| 0 <= j < i && self.schemas@[j].content_type@ == content_type@
                        ==> (#[trigger] self.schemas@[j]).version.major != version.major,
                },
        {
            let d = &self.schemas[i];
            if d.version.major == version.major && str_eq(d.content_type.as_str(), content_type) {
                proof {
                    assert(def_for(self.schemas@, content_type@, d.version) is Some);
                }
                match best {
                    Some(w) => {
                        if w.lt(&d.version) {
                            best = Some(d.version);
                            proof {
                                assert forall|j: int| 0 <= j < i + 1 && self.schemas@[j].content_type@ == content_type@
                                    && self.schemas@[j].version.major == version.major implies !version_lt(d.version, #[trigger] self.schemas@[j].version) by {
                                    if j < i {
                                        assert(!version_lt(w, self.schemas@[j].version));
                                    }
                                }
                            }
                        }
                    },
                    None => {
                        best = Some(d.version);
                    },
                }
            }
        }
        let actual = version.to_string();
        match best {
            Some(w) => {
                proof {
                    assert(latest_of_major(self.schemas@, content_type@, version.major, w));
                }
                Err(MeshError::SchemaVersionMismatch { content_type: content_type.to_owned(), expected: w.to_string(), actual })
            },
            None => Err(MeshError::SchemaNotRegistered { content_type: content_type.to_owned(), version: actual }),
        }
    }
}

// ---------------------------------------------------------------------------
// Artifacts
// ---------------------------------------------------------------------------

/// Links an artifact to the execution that produced it.
#[derive(Debug)]
pub struct ArtifactProvenance {
    /// Task that produced the artifact.
    pub producing_task_id: TaskId,
    /// Agent that produced it, if any.
    pub producing_agent_id: Option<String>,
    /// Canvas node that produced it, if any.
    pub producing_node_id: Option<u128>,
    /// Block controller that produced it, if any.
    pub controller_id: Option<u128>,
    /// Schema version of the content.
    pub schema_version: String,
}

impl Clone for ArtifactProvenance {
    fn clone(&self) -> (r: Self)
        ensures
            r == *self,
    {
        ArtifactProvenance {
            producing_task_id: self.producing_task_id,
            producing_agent_id: match &self.producing_agent_id {
                Some(a) => Some(a.clone()),
                None => None,
            },
            producing_node_id: self.producing_node_id,
            controller_id: self.controller_id,
            schema_version: self.schema_version.clone(),
        }
    }
}

/// An artifact stored in the mesh.
#[derive(Debug)]
pub struct MeshArtifact {
    /// Artifact id.
    pub id: ArtifactId,
    /// Owning dimension.
    pub dimension_id: DimensionId,
    /// Producing task.
    pub task_id: TaskId,
    /// Canvas node, if any.
    pub node_id: Option<u128>,
    /// Content type.
    pub content_type: String,
    /// Tags for indexing and routing.
    pub tags: Vec<String>,
    /// Payload.
    pub payload: JsonValue,
    /// Provenance.
    pub provenance: ArtifactProvenance,
    /// Production time, Unix epoch milliseconds.
    pub created_at_ms: u64,
    /// 0 = ephemeral, 1 = session, 2 = persistent.
    pub immutability_tier: u8,
    /// Whether it has been consumed.
    pub consumed: bool,
}

/// `a` and `b` hold the same values (tags by their contents).
pub open spec fn same_artifact(a: MeshArtifact, b: MeshArtifact) -> bool {
    &&& a.id == b.id
    &&& a.dimension_id == b.dimension_id
    &&& a.task_id == b.task_id
    &&& a.node_id == b.node_id
    &&& a.content_type == b.content_type
    &&& a.tags@ == b.tags@
    &&& a.payload == b.payload
    &&& a.provenance == b.provenance
    &&& a.created_at_ms == b.created_at_ms
    &&& a.immutability_tier == b.immutability_tier
    &&& a.consumed == b.consumed
}

/// A copy of a list of strings.
fn copy_strings(v: &Vec<String>) -> (r: Vec<String>)
    ensures
        r@ == v@,
{
    let mut out: Vec<String> = Vec::new();
    let n = v.len();
    for i in 0..n
        invariant
            n == v@.len(),
            out@ == v@.take(i as int),
    {
        proof {
            assert(v@.take(i + 1) == v@.take(i as int).push(v@[i as int]));
        }
        out.push(v[i].clone());
    }
    proof {
        assert(v@.take(n as int) == v@);
    }
    out
}

impl Clone for MeshArtifact {
    fn clone(&self) -> (r: Self)
        ensures
            same_artifact(r, *self),
    {
        MeshArtifact {
            id: self.id,
            dimension_id: self.dimension_id,
            task_id: self.task_id,
            node_id: self.node_id,
            content_type: self.content_type.clone(),
            tags: copy_strings(&self.tags),
            payload: self.payload.clone(),
            provenance: self.provenance.clone(),
            created_at_ms: self.created_at_ms,
            immutability_tier: self.immutability_tier,
            consumed: self.consumed,
        }
    }
}

/// A point-in-time snapshot of a canvas node's state.
#[derive(Debug)]
pub struct NodeSnapshot {
    /// Snapshot id.
    pub artifact_id: ArtifactId,
    /// Owning dimension.
    pub dimension_id: DimensionId,
    /// Task that triggered it.
    pub task_id: TaskId,
    /// Node captured.
    pub node_id: u128,
    /// The node's state.
    pub state: JsonValue,
    /// Provenance.
    pub provenance: ArtifactProvenance,
    /// Capture time, Unix epoch milliseconds.
    pub captured_at_ms: u64,
    /// Node revision at capture.
    pub revision: u64,
}

impl Clone for NodeSnapshot {
    fn clone(&self) -> (r: Self)
        ensures
            r == *self,
    {
        NodeSnapshot {
            artifact_id: self.artifact_id,
            dimension_id: self.dimension_id,
            task_id: self.task_id,
            node_id: self.node_id,
            state: self.state.clone(),
            provenance: self.provenance.clone(),
            captured_at_ms: self.captured_at_ms,
            revision: self.revision,
        }
    }
}

/// One patch operation on a JSON document.
#[derive(Debug)]
pub enum PatchOp {
    /// Add `value` at `path`.
    Add { path: String, value: JsonValue },
    /// Remove the value at `path`.
    Remove { path: String },
    /// Replace `old` with `new` at `path`.
    Replace { path: String, old: JsonValue, new: JsonValue },
}

impl Clone for PatchOp {
    fn clone(&self) -> (r: Self)
        ensures
            r == *self,
    {
        match self {
            PatchOp::Add { path, value } => PatchOp::Add { path: path.clone(), value: value.clone() },
            PatchOp::Remove { path } => PatchOp::Remove { path: path.clone() },
            PatchOp::Replace { path, old, new } => PatchOp::Replace { path: path.clone(), old: old.clone(), new: new.clone() },
        }
    }
}

/// A recorded change of a node between two states.
#[derive(Debug)]
pub struct DiffPatch {
    /// Patch record id.
    pub artifact_id: ArtifactId,
    /// Owning dimension.
    pub dimension_id: DimensionId,
    /// Task that produced the patch.
    pub task_id: TaskId,
    /// Node patched.
    pub node_id: u128,
    /// Provenance.
    pub provenance: ArtifactProvenance,
    /// Recording time, Unix epoch milliseconds.
    pub created_at_ms: u64,
    /// Revision before the patch.
    pub base_revision: u64,
    /// Revision after the patch.
    pub new_revision: u64,
    /// Whether the patch overrode a concurrent edit.
    pub conflict: bool,
    /// State before.
    pub before: JsonValue,
    /// State after.
    pub after: JsonValue,
    /// Operations, in order.
    pub ops: Vec<PatchOp>,
}

/// `a` and `b` hold the same values (operations by their contents).
pub open spec fn same_patch(a: DiffPatch, b: DiffPatch) -> bool {
    &&& a.artifact_id == b.artifact_id
    &&& a.dimension_id == b.dimension_id
    &&& a.task_id == b.task_id
    &&& a.node_id == b.node_id
    &&& a.provenance == b.provenance
    &&& a.created_at_ms == b.created_at_ms
    &&& a.base_revision == b.base_revision
    &&& a.new_revision == b.new_revision
    &&& a.conflict == b.conflict
    &&& a.before == b.before
    &&& a.after == b.after
    &&& a.ops@ == b.ops@
}

impl Clone for DiffPatch {
    fn clone(&self) -> (r: Self)
        ensures
            same_patch(r, *self),
    {
        let mut ops: Vec<PatchOp> = Vec::new();
        let n = self.ops.len();
        for i in 0..n
            invariant
                n == self.ops@.len(),
                ops@ == self.ops@.take(i as int),
        {
            proof {
                assert(self.ops@.take(i + 1) == self.ops@.take(i as int).push(self.ops@[i as int]));
            }
            ops.push(self.ops[i].clone());
        }
        proof {
            assert(self.ops@.take(n as int) == self.ops@);
        }
        DiffPatch {
            artifact_id: self.artifact_id,
            dimension_id: self.dimension_id,
            task_id: self.task_id,
            node_id: self.node_id,
            provenance: self.provenance.clone(),
            created_at_ms: self.created_at_ms,
            base_revision: self.base_revision,
            new_revision: self.new_revision,
            conflict: self.conflict,
            before: self.before.clone(),
            after: self.after.clone(),
            ops,
        }
    }
}

// ---------------------------------------------------------------------------
// Notifications
// ---------------------------------------------------------------------------

/// Kind of mesh notification.
#[derive(Clone, Copy, Debug, PartialEq, Eq, Structural)]
pub enum MeshNotificationKind {
    Produced,
    Consumed,
    Snapshot,
    Patch,
    BatchProduced,
    Replicated,
}

/// What a write tells subscribers.
#[derive(Debug)]
pub struct MeshNotification {
    /// Artifacts affected.
    pub ids: Vec<ArtifactId>,
    /// Kind.
    pub kind: MeshNotificationKind,
    /// Dimension.
    pub dimension_id: DimensionId,
    /// Task.
    pub task_id: TaskId,
    /// Node, if any.
    pub node_id: Option<u128>,
    /// Tags.
    pub tags: Vec<String>,
    /// Content type.
    pub content_type: String,
}

impl Clone for MeshNotification {
    fn clone(&self) -> (r: Self)
        ensures
            r.ids@ == self.ids@,
            r.kind == self.kind,
            r.dimension_id == self.dimension_id,
            r.task_id == self.task_id,
            r.node_id == self.node_id,
            r.tags@ == self.tags@,
            r.content_type@ == self.content_type@,
    {
        let mut ids: Vec<ArtifactId> = Vec::new();
        let n = self.ids.len();
        for i in 0..n
            invariant
                n == self.ids@.len(),
                ids@ == self.ids@.take(i as int),
        {
            proof {
                assert(self.ids@.take(i + 1) == self.ids@.take(i as int).push(self.ids@[i as int]));
            }
            ids.push(self.ids[i]);
        }
        proof {
            assert(self.ids@.take(n as int) == self.ids@);
        }
        MeshNotification {
            ids,
            kind: self.kind,
            dimension_id: self.dimension_id,
            task_id: self.task_id,
            node_id: self.node_id,
            tags: copy_strings(&self.tags),
            content_type: self.content_type.clone(),
        }
    }
}

/// A filter on notifications; every field that is set must match.
#[derive(Debug)]
pub struct SubscriptionFilter {
    /// Only this dimension.
    pub dimension_id: Option<DimensionId>,
    /// Only events of the given task.
    pub task_id: Option<TaskId>,
    /// Only this node.
    pub node_id: Option<u128>,
    /// Only notifications carrying this tag.
    pub tag: Option<String>,
    /// Only this content type.
    pub content_type: Option<String>,
    /// Only these kinds.
    pub kinds: Option<Vec<MeshNotificationKind>>,
}

impl Default for SubscriptionFilter {
    /// A filter that lets everything through.
    fn default() -> (r: Self)
        ensures
            r.dimension_id is None && r.task_id is None && r.node_id is None
                && r.tag is None && r.content_type is None && r.kinds is None,
    {
        SubscriptionFilter { dimension_id: None, task_id: None, node_id: None, tag: None, content_type: None, kinds: None }
    }
}

/// Whether `f` lets `n` through.
pub open spec fn filter_matches(f: SubscriptionFilter, n: MeshNotification) -> bool {
    &&& (f.dimension_id matches Some(d) ==> n.dimension_id == d)
    &&& (f.task_id matches Some(t) ==> n.task_id == t)
    &&& (f.node_id matches Some(x) ==> n.node_id == Some(x))
    &&& (f.tag matches Some(t) ==> exists|i: int| 0 <= i < n.tags@.len() && n.tags@[i]@ == t@)
    &&& (f.content_type matches Some(c) ==> n.content_type@ == c@)
    &&& (f.kinds matches Some(ks) ==> ks@.contains(n.kind))
}

impl SubscriptionFilter {
    /// Whether the filter lets `note` through.
    pub fn matches(&self, note: &MeshNotification) -> (r: bool)
        ensures
            r == filter_matches(*self, *note),
    {
        if let Some(d) = self.dimension_id {
            if note.dimension_id != d {
                return false;
            }
        }
        if let Some(t) = self.task_id {
            if note.task_id != t {
                return false;
            }
        }
        if let Some(x) = self.node_id {
            if note.node_id != Some(x) {
                return false;
            }
        }
        if let Some(tag) = &self.tag {
            if !crate::text::contains_str(&note.tags, tag.as_str()) {
                return false;
            }
        }
        if let Some(c) = &self.content_type {
            if !str_eq(note.content_type.as_str(), c.as_str()) {
                return false;
            }
        }
        if let Some(kinds) = &self.kinds {
            let n = kinds.len();
            let mut found = false;
            for i in 0..n
                invariant
                    n == kinds@.len(),
                    found == exists|j: int| 0 <= j < i && kinds@[j] == note.kind,
            {
                if kinds[i] == note.kind {
                    found = true;
                }
            }
            if !found {
                return false;
            }
        }
        true
    }
}

// ---------------------------------------------------------------------------
// Revisions, node state, garbage collection
// ---------------------------------------------------------------------------

/// How concurrent edits are resolved.
#[derive(Clone, Copy, Debug, PartialEq, Eq, Structural)]
pub enum ConflictStrategy {
    /// Refuse a conflicting edit.
    Reject,
    /// Accept it and mark it as a conflict.
    LastWriteWins,
}

/// The outcome of a recorded patch.
#[derive(Clone, Copy, Debug, PartialEq, Eq, Structural)]
pub struct PatchApplyResult {
    /// Patch record id.
    pub artifact_id: ArtifactId,
    /// Revision after the patch.
    pub new_revision: u64,
    /// Whether it overrode a concurrent edit.
    pub conflict: bool,
}

/// The latest known mesh state of a node.
#[derive(Clone, Copy, Debug, PartialEq, Eq, Structural)]
pub struct MeshNodeState {
    /// Node id.
    pub node_id: u128,
    /// Current revision.
    pub revision: u64,
    /// Last artifact produced for the node.
    pub last_artifact_id: Option<ArtifactId>,
    /// Last snapshot of the node.
    pub last_snapshot_id: Option<ArtifactId>,
    /// Last patch of the node.
    pub last_patch_id: Option<ArtifactId>,
    /// Last update time, Unix epoch milliseconds.
    pub updated_at_ms: u64,
}

/// What garbage collection removes.
#[derive(Debug)]
pub struct GarbageCollectionPolicy {
    /// Dimensions to keep; empty means all are active.
    pub active_dimensions: Vec<DimensionId>,
    /// Remove consumed ephemeral artifacts.
    pub remove_consumed_ephemeral: bool,
    /// Remove snapshots of nodes the store no longer tracks.
    pub remove_orphaned_nodes: bool,
    /// Remove everything created before this time.
    pub expire_before_ms: Option<u64>,
}

impl Default for GarbageCollectionPolicy {
    /// All dimensions active, consumed ephemeral artifacts and orphaned
    /// snapshots removed, nothing expires.
    fn default() -> (r: Self)
        ensures
            r.active_dimensions@.len() == 0,
            r.remove_consumed_ephemeral,
            r.remove_orphaned_nodes,
            r.expire_before_ms is None,
    {
        GarbageCollectionPolicy {
            active_dimensions: Vec::new(),
            remove_consumed_ephemeral: true,
            remove_orphaned_nodes: true,
            expire_before_ms: None,
        }
    }
}

/// How much garbage collection removed.
#[derive(Clone, Copy, Debug, PartialEq, Eq, Structural)]
pub struct GarbageCollectionReport {
    /// Artifacts removed.
    pub artifacts_removed: usize,
    /// Snapshots removed.
    pub snapshots_removed: usize,
    /// Patches removed.
    pub patches_removed: usize,
}

impl Default for GarbageCollectionReport {
    /// Nothing removed.
    fn default() -> (r: Self)
        ensures
            r == (GarbageCollectionReport { artifacts_removed: 0, snapshots_removed: 0, patches_removed: 0 }),
    {
        GarbageCollectionReport { artifacts_removed: 0, snapshots_removed: 0, patches_removed: 0 }
    }
}

// ---------------------------------------------------------------------------
// Tags
// ---------------------------------------------------------------------------

/// The tags strictly increase.
pub open spec fn tags_ascending(s: Seq<String>) -> bool {
    forall|i: int, j: int| 0 <= i < j < s.len() ==> seq_lt(s[i]@, s[j]@)
}

/// Some tag of `s` reads `x`.
pub open spec fn has_tag(s: Seq<String>, x: Seq<char>) -> bool {
    exists|i: int| 0 <= i < s.len() && s[i]@ == x
}

/// `a` and `b` hold the same tags.
pub open spec fn same_tags(a: Seq<String>, b: Seq<String>) -> bool {
    forall|x: Seq<char>| #![trigger has_tag(a, x)] #![trigger has_tag(b, x)] has_tag(a, x) <==> has_tag(b, x)
}

/// `t` lists the tags of `tags` once each, in ascending order.
pub open spec fn sorted_tag_set(t: Seq<Seq<char>>, tags: Seq<String>) -> bool {
    &&& forall|i: int, j: int| 0 <= i < j < t.len() ==> seq_lt(t[i], t[j])
    &&& forall|x: Seq<char>| #![trigger t.contains(x)] #![trigger has_tag(tags, x)] t.contains(x) <==> has_tag(tags, x)
}

/// The tags of `tags` once each, in ascending order.
pub open spec fn normalized(tags: Seq<String>) -> Seq<Seq<char>> {
    choose|t: Seq<Seq<char>>| sorted_tag_set(t, tags)
}

/// Two ascending lists of the same tags read alike.
pub proof fn lemma_sorted_tag_set_unique(x: Seq<Seq<char>>, y: Seq<Seq<char>>, tags: Seq<String>)
    requires
        sorted_tag_set(x, tags),
        sorted_tag_set(y, tags),
    ensures
        x == y,
    decreases x.len() + y.len(),
{
    if x.len() == 0 {
        if y.len() > 0 {
            assert(y.contains(y[0]));
            assert(has_tag(tags, y[0]));
            assert(x.contains(y[0]));
        }
        assert(x =~= y);
    } else if y.len() == 0 {
        assert(x.contains(x[0]));
        assert(y.contains(x[0]));
    } else {
        assert(x.contains(x[0]) && y.contains(y[0]));
        assert(y.contains(x[0]));
        assert(x.contains(y[0]));
        let j = choose|j: int| 0 <= j < y.len() && y[j] == x[0];
        let i = choose|i: int| 0 <= i < x.len() && x[i] == y[0];
        if j > 0 && i > 0 {
            assert(seq_lt(y[0], y[j]));
            assert(seq_lt(x[0], x[i]));
            lemma_seq_lt_transitive(y[0], x[0], y[0]);
            lemma_seq_lt_irreflexive(y[0]);
        }
        assert(x[0] == y[0]);
        let h = x[0];
        let pred = |t: String| t@ != h;
        let ex = tags.filter(pred);
        let x2 = x.drop_first();
        let y2 = y.drop_first();
        assert forall|v: Seq<char>| #![trigger x2.contains(v)] #![trigger has_tag(ex, v)] x2.contains(v) <==> has_tag(ex, v) by {
            if x2.contains(v) {
                let k = choose|k: int| 0 <= k < x2.len() && x2[k] == v;
                assert(x[k + 1] == v);
                assert(seq_lt(x[0], x[k + 1]));
                lemma_seq_lt_irreflexive(h);
                assert(x.contains(v));
                let m = choose|m: int| 0 <= m < tags.len() && tags[m]@ == v;
                assert(ex.contains(tags[m]));
                let q = choose|q: int| 0 <= q < ex.len() && ex[q] == tags[m];
                assert(ex[q]@ == v);
            }
            if has_tag(ex, v) {
                let q = choose|q: int| 0 <= q < ex.len() && ex[q]@ == v;
                assert(ex.contains(ex[q]));
                tags.lemma_filter_contains_rev(pred, ex[q]);
                tags.lemma_filter_pred(pred, q);
                assert(tags.contains(ex[q]));
                let m = choose|m: int| 0 <= m < tags.len() && tags[m] == ex[q];
                assert(has_tag(tags, v));
                assert(x.contains(v));
                let k = choose|k: int| 0 <= k < x.len() && x[k] == v;
                assert(k != 0);
                assert(x2[k - 1] == v);
            }
        }
        assert forall|v: Seq<char>| #![trigger y2.contains(v)] #![trigger has_tag(ex, v)] y2.contains(v) <==> has_tag(ex, v) by {
            if y2.contains(v) {
                let k = choose|k: int| 0 <= k < y2.len() && y2[k] == v;
                assert(y[k + 1] == v);
                assert(seq_lt(y[0], y[k + 1]));
                lemma_seq_lt_irreflexive(h);
                assert(y.contains(v));
                let m = choose|m: int| 0 <= m < tags.len() && tags[m]@ == v;
                assert(ex.contains(tags[m]));
                let q = choose|q: int| 0 <= q < ex.len() && ex[q] == tags[m];
                assert(ex[q]@ == v);
            }
            if has_tag(ex, v) {
                let q = choose|q: int| 0 <= q < ex.len() && ex[q]@ == v;
                assert(ex.contains(ex[q]));
                tags.lemma_filter_contains_rev(pred, ex[q]);
                tags.lemma_filter_pred(pred, q);
                assert(tags.contains(ex[q]));
                let m = choose|m: int| 0 <= m < tags.len() && tags[m] == ex[q];
                assert(has_tag(tags, v));
                assert(y.contains(v));
                let k = choose|k: int| 0 <= k < y.len() && y[k] == v;
                assert(k != 0);
                assert(y2[k - 1] == v);
            }
        }
        assert forall|a: int, b: int| 0 <= a < b < x2.len() implies seq_lt(x2[a], x2[b]) by {
            assert(x2[a] == x[a + 1] && x2[b] == x[b + 1]);
        }
        assert forall|a: int, b: int| 0 <= a < b < y2.len() implies seq_lt(y2[a], y2[b]) by {
            assert(y2[a] == y[a + 1] && y2[b] == y[b + 1]);
        }
        lemma_sorted_tag_set_unique(x2, y2, ex);
        assert(x =~= seq![h] + x2);
        assert(y =~= seq![h] + y2);
    }
}

/// Sort the tags and drop repeats.
pub fn normalize_tags(tags: Vec<String>) -> (r: Vec<String>)
    ensures
        tags_ascending(r@),
        same_tags(r@, tags@),
        texts(r@) == normalized(tags@),
{
    let ghost orig = tags@;
    let mut rest = tags;
    let mut out: Vec<String> = Vec::new();
    let n = rest.len();
    let mut i: usize = 0;
    while i < n
        invariant
            n == orig.len(),
            i <= n,
            rest@ == orig.skip(i as int),
            tags_ascending(out@),
            same_tags(out@, orig.take(i as int)),
        decreases n - i,
    {
        proof {
            assert(rest@[0] == orig[i as int]);
        }
        let t = rest.remove(0);
        proof {
            assert(rest@ =~= orig.skip(i + 1));
        }
        let m = out.len();
        let mut p: usize = 0;
        while p < m && str_lt(out[p].as_str(), t.as_str())
            invariant
                m == out@.len(),
                p <= m,
                forall|k: int| 0 <= k < p ==> seq_lt(out@[k]@, t@),
            decreases m - p,
        {
            p = p + 1;
        }
        let ghost before = out@;
        let dup = p < m && str_eq(out[p].as_str(), t.as_str());
        if !dup {
            out.insert(p, t);
            proof {
                let o = out@;
                assert(o == before.insert(p as int, o[p as int]));
                assert forall|a: int, b: int| 0 <= a < b < o.len() implies seq_lt(o[a]@, o[b]@) by {
                    if b < p {
                        assert(o[a] == before[a] && o[b] == before[b]);
                    } else if b == p {
                        assert(o[a] == before[a]);
                    } else if a < p {
                        assert(o[a] == before[a] && o[b] == before[b - 1]);
                        if p < before.len() {
                            assert(!seq_lt(before[p as int]@, o[p as int]@));
                            if before[p as int]@ != o[p as int]@ {
                                lemma_seq_lt_total(before[p as int]@, o[p as int]@);
                            }
                            if b - 1 > p {
                                lemma_seq_lt_transitive(o[p as int]@, before[p as int]@, before[b - 1]@);
                            }
                            lemma_seq_lt_transitive(o[a]@, o[p as int]@, o[b]@);
                        }
                    } else if a == p {
                        assert(o[b] == before[b - 1]);
                        assert(!seq_lt(before[p as int]@, o[p as int]@));
                        if before[p as int]@ != o[p as int]@ {
                            lemma_seq_lt_total(before[p as int]@, o[p as int]@);
                        }
                        if b - 1 > p {
                            lemma_seq_lt_transitive(o[p as int]@, before[p as int]@, before[b - 1]@);
                        }
                    } else {
                        assert(o[a] == before[a - 1] && o[b] == before[b - 1]);
                    }
                }
                assert forall|x: Seq<char>| #![trigger has_tag(o, x)] #![trigger has_tag(orig.take(i + 1), x)]
                    has_tag(o, x) <==> has_tag(orig.take(i + 1), x) by {
                    if has_tag(o, x) {
                        let a = choose|a: int| #![trigger o[a]] 0 <= a < o.len() && o[a]@ == x;
                        if a == p {
                            assert(orig.take(i + 1)[i as int]@ == x);
                        } else {
                            let a2 = if a < p { a } else { a - 1 };
                            assert(before[a2]@ == x);
                            assert(has_tag(before, x));
                            let b = choose|b: int| #![trigger orig.take(i as int)[b]] 0 <= b < orig.take(i as int).len() && orig.take(i as int)[b]@ == x;
                            assert(orig.take(i + 1)[b] == orig.take(i as int)[b]);
                        }
                    }
                    if has_tag(orig.take(i + 1), x) {
                        let b = choose|b: int| #![trigger orig.take(i + 1)[b]] 0 <= b < orig.take(i + 1).len() && orig.take(i + 1)[b]@ == x;
                        if b == i {
                            assert(o[p as int]@ == x);
                        } else {
                            assert(orig.take(i as int)[b] == orig.take(i + 1)[b]);
                            assert(has_tag(orig.take(i as int), x));
                            let a = choose|a: int| #![trigger before[a]] 0 <= a < before.len() && before[a]@ == x;
                            if a < p {
                                assert(o[a] == before[a]);
                            } else {
                                assert(o[a + 1] == before[a]);
                            }
                        }
                    }
                }
            }
        } else {
            proof {
                assert forall|x: Seq<char>| #![trigger has_tag(out@, x)] #![trigger has_tag(orig.take(i + 1), x)]
                    has_tag(out@, x) <==> has_tag(orig.take(i + 1), x) by {
                    if has_tag(out@, x) {
                        assert(has_tag(out@, x));
                        let b = choose|b: int| #![trigger orig.take(i as int)[b]] 0 <= b < orig.take(i as int).len() && orig.take(i as int)[b]@ == x;
                        assert(orig.take(i + 1)[b] == orig.take(i as int)[b]);
                    }
                    if has_tag(orig.take(i + 1), x) {
                        let b = choose|b: int| #![trigger orig.take(i + 1)[b]] 0 <= b < orig.take(i + 1).len() && orig.take(i + 1)[b]@ == x;
                        if b == i {
                            assert(out@[p as int]@ == x);
                        } else {
                            assert(orig.take(i as int)[b] == orig.take(i + 1)[b]);
                            assert(has_tag(orig.take(i as int), x));
                        }
                    }
                }
            }
        }
        i = i + 1;
    }
    proof {
        assert(orig.take(n as int) == orig);
        lemma_texts_sorted(out@, orig);
    }
    out
}

/// The texts of an ascending tag list with the same tags as `tags` are the
/// normalized form of `tags`.
pub proof fn lemma_texts_sorted(r: Seq<String>, tags: Seq<String>)
    requires
        tags_ascending(r),
        same_tags(r, tags),
    ensures
        texts(r) == normalized(tags),
{
    let t = texts(r);
    assert forall|x: Seq<char>| #![trigger t.contains(x)] #![trigger has_tag(tags, x)] t.contains(x) <==> has_tag(tags, x) by {
        if t.contains(x) {
            let k = choose|k: int| 0 <= k < t.len() && t[k] == x;
            assert(r[k]@ == x);
            assert(has_tag(r, x));
        }
        if has_tag(tags, x) {
            assert(has_tag(r, x));
            let k = choose|k: int| 0 <= k < r.len() && r[k]@ == x;
            assert(t[k] == x);
        }
    }
    assert(sorted_tag_set(t, tags));
    let c = normalized(tags);
    assert(sorted_tag_set(c, tags));
    lemma_sorted_tag_set_unique(t, c, tags);
}

// ---------------------------------------------------------------------------
// Index
// ---------------------------------------------------------------------------

/// Filings under key `k`.
pub open spec fn key_is(k: u128) -> spec_fn((u128, u128)) -> bool {
    |p: (u128, u128)| p.0 == k
}

/// Filings under text key `k`.
pub open spec fn text_key_is(k: Seq<char>) -> spec_fn((Seq<char>, u128)) -> bool {
    |p: (Seq<char>, u128)| p.0 == k
}

/// The id of a filing.
pub open spec fn filed_id() -> spec_fn((u128, u128)) -> ArtifactId {
    |p: (u128, u128)| ArtifactId(p.1)
}

/// The id of a text filing.
pub open spec fn text_filed_id() -> spec_fn((Seq<char>, u128)) -> ArtifactId {
    |p: (Seq<char>, u128)| ArtifactId(p.1)
}

/// Filings other than `id` under `k`.
pub open spec fn not_filing(k: u128, id: u128) -> spec_fn((u128, u128)) -> bool {
    |p: (u128, u128)| !(p.0 == k && p.1 == id)
}

/// Filings other than `id` under any of `keys`.
pub open spec fn not_filing_any(keys: Seq<String>, id: u128) -> spec_fn((Seq<char>, u128)) -> bool {
    |p: (Seq<char>, u128)| !(p.1 == id && has_tag(keys, p.0))
}

/// The filing of `id` under a text key.
pub open spec fn filing_of(id: u128) -> spec_fn(String) -> (Seq<char>, u128) {
    |t: String| (t@, id)
}

/// The ids filed under `k`, in filing order.
pub open spec fn ids_under(pairs: Seq<(u128, u128)>, k: u128) -> Seq<ArtifactId> {
    pairs.filter(key_is(k)).map_values(filed_id())
}

/// The ids filed under text key `k`, in filing order.
pub open spec fn ids_under_text(pairs: Seq<(Seq<char>, u128)>, k: Seq<char>) -> Seq<ArtifactId> {
    pairs.filter(text_key_is(k)).map_values(text_filed_id())
}

/// Ids filed under integer keys, in filing order.
#[derive(Debug)]
struct IdIndex {
    pairs: Vec<(u128, u128)>,
}

impl IdIndex {
    fn new() -> (r: Self)
        ensures
            r.pairs@ == Seq::<(u128, u128)>::empty(),
    {
        IdIndex { pairs: Vec::new() }
    }

    fn file(&mut self, k: u128, id: u128)
        ensures
            final(self).pairs@ == old(self).pairs@.push((k, id)),
    {
        self.pairs.push((k, id));
    }

    /// Drop every filing of `id` under `k`.
    fn unfile(&mut self, k: u128, id: u128)
        ensures
            final(self).pairs@ == old(self).pairs@.filter(not_filing(k, id)),
    {
        let ghost f = not_filing(k, id);
        let ghost orig = self.pairs@;
        let mut kept: Vec<(u128, u128)> = Vec::new();
        let n = self.pairs.len();
        for i in 0..n
            invariant
                n == orig.len(),
                orig == self.pairs@,
                f == not_filing(k, id),
                kept@ == orig.take(i as int).filter(f),
        {
            proof {
                assert(orig.take(i + 1) == orig.take(i as int).push(orig[i as int]));
                orig.take(i as int).lemma_filter_push(orig[i as int], f);
            }
            let pr = self.pairs[i];
            if !(pr.0 == k && pr.1 == id) {
                kept.push(pr);
            }
        }
        proof {
            assert(orig.take(n as int) == orig);
        }
        self.pairs = kept;
    }

    fn lookup(&self, k: u128) -> (r: Vec<ArtifactId>)
        ensures
            r@ == ids_under(self.pairs@, k),
    {
        let ghost f = key_is(k);
        let ghost g = filed_id();
        let mut out: Vec<ArtifactId> = Vec::new();
        let n = self.pairs.len();
        for i in 0..n
            invariant
                n == self.pairs@.len(),
                f == key_is(k),
                g == filed_id(),
                out@ == self.pairs@.take(i as int).filter(f).map_values(g),
        {
            proof {
                assert(self.pairs@.take(i + 1) == self.pairs@.take(i as int).push(self.pairs@[i as int]));
                self.pairs@.take(i as int).lemma_filter_push(self.pairs@[i as int], f);
            }
            let pr = self.pairs[i];
            if pr.0 == k {
                proof {
                    assert(self.pairs@.take(i as int).filter(f).push(pr).map_values(g)
                        =~= self.pairs@.take(i as int).filter(f).map_values(g).push(ArtifactId(pr.1)));
                }
                out.push(ArtifactId(pr.1));
            }
        }
        proof {
            assert(self.pairs@.take(n as int) == self.pairs@);
        }
        out
    }
}

/// The view of text-keyed filings.
pub open spec fn text_pairs(s: Seq<(String, u128)>) -> Seq<(Seq<char>, u128)> {
    s.map_values(|p: (String, u128)| (p.0@, p.1))
}

/// Ids filed under text keys, in filing order.
#[derive(Debug)]
struct TextIndex {
    pairs: Vec<(String, u128)>,
}

impl TextIndex {
    fn new() -> (r: Self)
        ensures
            text_pairs(r.pairs@) == Seq::<(Seq<char>, u128)>::empty(),
    {
        let r = TextIndex { pairs: Vec::new() };
        assert(text_pairs(r.pairs@) =~= Seq::<(Seq<char>, u128)>::empty());
        r
    }

    fn file(&mut self, k: &str, id: u128)
        ensures
            text_pairs(final(self).pairs@) == text_pairs(old(self).pairs@).push((k@, id)),
    {
        self.pairs.push((k.to_owned(), id));
        proof {
            assert(text_pairs(self.pairs@) =~= text_pairs(old(self).pairs@).push((k@, id)));
        }
    }

    /// File `id` under every key of `keys`, in order.
    fn file_all(&mut self, keys: &Vec<String>, id: u128)
        ensures
            text_pairs(final(self).pairs@) == text_pairs(old(self).pairs@)
                + keys@.map_values(filing_of(id)),
    {
        let ghost start = text_pairs(self.pairs@);
        let n = keys.len();
        for i in 0..n
            invariant
                n == keys@.len(),
                text_pairs(self.pairs@) == start + keys@.take(i as int).map_values(filing_of(id)),
        {
            self.file(keys[i].as_str(), id);
            proof {
                assert(keys@.take(i + 1).map_values(filing_of(id))
                    =~= keys@.take(i as int).map_values(filing_of(id)).push((keys@[i as int]@, id)));
            }
        }
        proof {
            assert(keys@.take(n as int) == keys@);
        }
    }

    /// Drop every filing of `id` under any key of `keys`.
    fn unfile_all(&mut self, keys: &Vec<String>, id: u128)
        ensures
            text_pairs(final(self).pairs@) == text_pairs(old(self).pairs@)
                .filter(not_filing_any(keys@, id)),
    {
        let ghost f = not_filing_any(keys@, id);
        let ghost orig = text_pairs(self.pairs@);
        let mut rest: Vec<(String, u128)> = Vec::new();
        std::mem::swap(&mut rest, &mut self.pairs);
        let ghost raw = rest@;
        let mut kept: Vec<(String, u128)> = Vec::new();
        let n = rest.len();
        let mut i: usize = 0;
        while i < n
            invariant
                n == raw.len(),
                i <= n,
                orig == text_pairs(raw),
                rest@ == raw.skip(i as int),
                f == not_filing_any(keys@, id),
                text_pairs(kept@) == orig.take(i as int).filter(f),
            decreases n - i,
        {
            proof {
                assert(orig.take(i + 1) == orig.take(i as int).push(orig[i as int]));
                orig.take(i as int).lemma_filter_push(orig[i as int], f);
                assert(rest@[0] == raw[i as int]);
            }
            let pr = rest.remove(0);
            proof {
                assert(rest@ =~= raw.skip(i + 1));
            }
            let listed = crate::text::contains_str(keys, pr.0.as_str());
            if !(pr.1 == id && listed) {
                let ghost before = kept@;
                kept.push(pr);
                proof {
                    assert(text_pairs(kept@) =~= text_pairs(before).push(orig[i as int]));
                }
            }
            i = i + 1;
        }
        proof {
            assert(orig.take(n as int) == orig);
        }
        self.pairs = kept;
    }

    fn lookup(&self, k: &str) -> (r: Vec<ArtifactId>)
        ensures
            r@ == ids_under_text(text_pairs(self.pairs@), k@),
    {
        let ghost f = text_key_is(k@);
        let ghost g = text_filed_id();
        let ghost v = text_pairs(self.pairs@);
        let mut out: Vec<ArtifactId> = Vec::new();
        let n = self.pairs.len();
        for i in 0..n
            invariant
                n == v.len(),
                v == text_pairs(self.pairs@),
                f == text_key_is(k@),
                g == text_filed_id(),
                out@ == v.take(i as int).filter(f).map_values(g),
        {
            proof {
                assert(v.take(i + 1) == v.take(i as int).push(v[i as int]));
                v.take(i as int).lemma_filter_push(v[i as int], f);
            }
            if str_eq(self.pairs[i].0.as_str(), k) {
                proof {
                    assert(v.take(i as int).filter(f).push(v[i as int]).map_values(g)
                        =~= v.take(i as int).filter(f).map_values(g).push(ArtifactId(v[i as int].1)));
                }
                out.push(ArtifactId(self.pairs[i].1));
            }
        }
        proof {
            assert(v.take(n as int) == v);
        }
        out
    }
}

/// Artifacts filed by dimension, task, node, agent and tag.
#[derive(Debug)]
struct ArtifactIndex {
    by_dimension: IdIndex,
    by_task: IdIndex,
    by_node: IdIndex,
    by_agent: TextIndex,
    by_tag: TextIndex,
}

impl ArtifactIndex {
    fn new() -> (r: Self)
        ensures
            r.by_dimension.pairs@.len() == 0,
            r.by_task.pairs@.len() == 0,
            r.by_node.pairs@.len() == 0,
            text_pairs(r.by_agent.pairs@).len() == 0,
            text_pairs(r.by_tag.pairs@).len() == 0,
    {
        ArtifactIndex {
            by_dimension: IdIndex::new(),
            by_task: IdIndex::new(),
            by_node: IdIndex::new(),
            by_agent: TextIndex::new(),
            by_tag: TextIndex::new(),
        }
    }

    /// File an artifact under its dimension, task, node, agent and tags.
    fn insert(&mut self, a: &MeshArtifact)
        ensures
            final(self).by_dimension.pairs@ == old(self).by_dimension.pairs@.push((a.dimension_id.0, a.id.0)),
            final(self).by_task.pairs@ == old(self).by_task.pairs@.push((a.task_id.0, a.id.0)),
            final(self).by_node.pairs@ == match a.node_id {
                Some(n) => old(self).by_node.pairs@.push((n, a.id.0)),
                None => old(self).by_node.pairs@,
            },
            text_pairs(final(self).by_agent.pairs@) == match a.provenance.producing_agent_id {
                Some(g) => text_pairs(old(self).by_agent.pairs@).push((g@, a.id.0)),
                None => text_pairs(old(self).by_agent.pairs@),
            },
            text_pairs(final(self).by_tag.pairs@) == text_pairs(old(self).by_tag.pairs@)
                + a.tags@.map_values(filing_of(a.id.0)),
    {
        self.by_dimension.file(a.dimension_id.0, a.id.0);
        self.by_task.file(a.task_id.0, a.id.0);
        if let Some(n) = a.node_id {
            self.by_node.file(n, a.id.0);
        }
        if let Some(g) = &a.provenance.producing_agent_id {
            self.by_agent.file(g.as_str(), a.id.0);
        }
        self.by_tag.file_all(&a.tags, a.id.0);
    }

    /// Drop an artifact's filings under its dimension, task, node, agent and
    /// tags.
    fn remove(&mut self, a: &MeshArtifact)
        ensures
            final(self).by_dimension.pairs@ == old(self).by_dimension.pairs@
                .filter(not_filing(a.dimension_id.0, a.id.0)),
            final(self).by_task.pairs@ == old(self).by_task.pairs@
                .filter(not_filing(a.task_id.0, a.id.0)),
            final(self).by_node.pairs@ == match a.node_id {
                Some(n) => old(self).by_node.pairs@.filter(not_filing(n, a.id.0)),
                None => old(self).by_node.pairs@,
            },
            text_pairs(final(self).by_agent.pairs@) == match a.provenance.producing_agent_id {
                Some(g) => text_pairs(old(self).by_agent.pairs@)
                    .filter(not_filing_any(seq![g], a.id.0)),
                None => text_pairs(old(self).by_agent.pairs@),
            },
            text_pairs(final(self).by_tag.pairs@) == text_pairs(old(self).by_tag.pairs@)
                .filter(not_filing_any(a.tags@, a.id.0)),
    {
        self.by_dimension.unfile(a.dimension_id.0, a.id.0);
        self.by_task.unfile(a.task_id.0, a.id.0);
        if let Some(n) = a.node_id {
            self.by_node.unfile(n, a.id.0);
        }
        if let Some(g) = &a.provenance.producing_agent_id {
            let keys = vec![g.clone()];
            proof {
                assert(keys@ =~= seq![*g]);
            }
            self.by_agent.unfile_all(&keys, a.id.0);
        }
        self.by_tag.unfile_all(&a.tags, a.id.0);
    }
}

// ---------------------------------------------------------------------------
// The store
// ---------------------------------------------------------------------------

/// What `produce` fills in: a blank content type becomes
/// `application/json`, a blank schema version `1.0.0`; the producing task is
/// the artifact's task; a missing producing node is the artifact's node; the
/// tags are sorted without repeats.
pub open spec fn prepared(a: MeshArtifact, b: MeshArtifact) -> bool {
    &&& b.id == a.id
    &&& b.dimension_id == a.dimension_id
    &&& b.task_id == a.task_id
    &&& b.node_id == a.node_id
    &&& b.content_type@ == prepared_content_type(a)
    &&& tags_ascending(b.tags@)
    &&& same_tags(b.tags@, a.tags@)
    &&& texts(b.tags@) == normalized(a.tags@)
    &&& b.payload == a.payload
    &&& b.provenance.producing_task_id == a.task_id
    &&& b.provenance.producing_agent_id == a.provenance.producing_agent_id
    &&& b.provenance.producing_node_id == (if a.provenance.producing_node_id is None { a.node_id } else { a.provenance.producing_node_id })
    &&& b.provenance.controller_id == a.provenance.controller_id
    &&& b.provenance.schema_version@ == (if is_blank(a.provenance.schema_version@) { "1.0.0"@ } else { a.provenance.schema_version@ })
    &&& b.created_at_ms == a.created_at_ms
    &&& b.immutability_tier == a.immutability_tier
    &&& b.consumed == a.consumed
}

/// The content type `produce` stores for `a`.
pub open spec fn prepared_content_type(a: MeshArtifact) -> Seq<char> {
    if is_blank(a.content_type@) { "application/json"@ } else { a.content_type@ }
}

/// Fill in the defaults of an artifact about to be stored.
pub fn prepare(a: MeshArtifact) -> (r: MeshArtifact)
    ensures
        prepared(a, r),
{
    proof {
        reveal_strlit("application/json");
        reveal_strlit("1.0.0");
    }
    let mut a = a;
    if blank(a.content_type.as_str()) {
        a.content_type = "application/json".to_owned();
    }
    if blank(a.provenance.schema_version.as_str()) {
        a.provenance.schema_version = "1.0.0".to_owned();
    }
    a.provenance.producing_task_id = a.task_id;
    if a.provenance.producing_node_id.is_none() {
        a.provenance.producing_node_id = a.node_id;
    }
    let mut tags: Vec<String> = Vec::new();
    std::mem::swap(&mut tags, &mut a.tags);
    a.tags = normalize_tags(tags);
    a
}

/// The revision of node `n` (0 when it is not tracked).
pub open spec fn revision_of(states: Map<u128, MeshNodeState>, n: u128) -> u64 {
    if states.contains_key(n) { states[n].revision } else { 0 }
}

/// The state of node `n`, or a fresh one at revision 0.
pub open spec fn state_or_new(states: Map<u128, MeshNodeState>, n: u128) -> MeshNodeState {
    if states.contains_key(n) {
        states[n]
    } else {
        MeshNodeState { node_id: n, revision: 0, last_artifact_id: None, last_snapshot_id: None, last_patch_id: None, updated_at_ms: 0 }
    }
}

/// `b` is `a` up to the update time.
pub open spec fn same_state(a: MeshNodeState, b: MeshNodeState) -> bool {
    MeshNodeState { updated_at_ms: 0, ..a } == MeshNodeState { updated_at_ms: 0, ..b }
}

/// `new` is `old` with node `n` replaced by a state that agrees with `s`
/// up to the update time.
pub open spec fn states_touched(old: Map<u128, MeshNodeState>, new: Map<u128, MeshNodeState>, n: u128, s: MeshNodeState) -> bool {
    &&& new.dom() == old.dom().insert(n)
    &&& same_state(new[n], s)
    &&& forall|k: u128| k != n && #[trigger] old.contains_key(k) ==> new[k] == old[k]
}

/// The notification of a single write.
pub open spec fn note_of(n: MeshNotification, id: ArtifactId, kind: MeshNotificationKind, dim: DimensionId, task: TaskId,
    node: Option<u128>, tags: Seq<Seq<char>>, content_type: Seq<char>) -> bool {
    &&& n.ids@ == seq![id]
    &&& n.kind == kind
    &&& n.dimension_id == dim
    &&& n.task_id == task
    &&& n.node_id == node
    &&& n.tags@.map_values(|t: String| t@) == tags
    &&& n.content_type@ == content_type
}

/// The views of a list of strings.
pub open spec fn texts(s: Seq<String>) -> Seq<Seq<char>> {
    s.map_values(|t: String| t@)
}

/// Whether garbage collection removes artifact `a`.
pub open spec fn gc_removes_artifact(p: GarbageCollectionPolicy, a: MeshArtifact) -> bool {
    ||| (p.expire_before_ms matches Some(c) && a.created_at_ms < c)
    ||| (p.active_dimensions@.len() > 0 && !p.active_dimensions@.contains(a.dimension_id) && a.immutability_tier <= 1)
    ||| (p.remove_consumed_ephemeral && a.immutability_tier == 0 && a.consumed)
}

/// Whether garbage collection removes snapshot `s`, given the tracked nodes.
pub open spec fn gc_removes_snapshot(p: GarbageCollectionPolicy, known: Set<u128>, s: NodeSnapshot) -> bool {
    ||| (p.expire_before_ms matches Some(c) && s.captured_at_ms < c)
    ||| (p.active_dimensions@.len() > 0 && !p.active_dimensions@.contains(s.dimension_id))
    ||| (p.remove_orphaned_nodes && !known.contains(s.node_id))
}

/// Whether garbage collection removes patch `d`.
pub open spec fn gc_removes_patch(p: GarbageCollectionPolicy, d: DiffPatch) -> bool {
    ||| (p.expire_before_ms matches Some(c) && d.created_at_ms < c)
    ||| (p.active_dimensions@.len() > 0 && !p.active_dimensions@.contains(d.dimension_id))
}

/// The entries of `m` that `keep` keeps.
pub open spec fn kept<V>(m: Map<u128, V>, keep: spec_fn(V) -> bool) -> Map<u128, V> {
    Map::new(|k: u128| m.contains_key(k) && keep(m[k]), |k: u128| m[k])
}

/// In-process mesh artifact store.
#[derive(Debug)]
pub struct MeshArtifactStore {
    artifacts: IdMap<MeshArtifact>,
    snapshots: IdMap<NodeSnapshot>,
    patches: IdMap<DiffPatch>,
    index: ArtifactIndex,
    schema_registry: MeshSchemaRegistry,
    node_states: IdMap<MeshNodeState>,
    outbox: Vec<MeshNotification>,
    channel_capacity: usize,
}

impl MeshArtifactStore {
    /// Stored artifacts by id.
    pub closed spec fn spec_artifacts(&self) -> Map<u128, MeshArtifact> {
        self.artifacts@
    }

    /// Stored snapshots by id.
    pub closed spec fn spec_snapshots(&self) -> Map<u128, NodeSnapshot> {
        self.snapshots@
    }

    /// Stored patches by id.
    pub closed spec fn spec_patches(&self) -> Map<u128, DiffPatch> {
        self.patches@
    }

    /// Tracked node states by node id.
    pub closed spec fn spec_states(&self) -> Map<u128, MeshNodeState> {
        self.node_states@
    }

    /// Registered schemas.
    pub closed spec fn spec_schemas(&self) -> Seq<SchemaDefinition> {
        self.schema_registry.spec_defs()
    }

    /// Notifications not yet handed out.
    pub closed spec fn spec_outbox(&self) -> Seq<MeshNotification> {
        self.outbox@
    }

    /// Filings by dimension: `(dimension, artifact)` pairs in filing order.
    pub closed spec fn spec_by_dimension(&self) -> Seq<(u128, u128)> {
        self.index.by_dimension.pairs@
    }

    /// Filings by task.
    pub closed spec fn spec_by_task(&self) -> Seq<(u128, u128)> {
        self.index.by_task.pairs@
    }

    /// Filings by node.
    pub closed spec fn spec_by_node(&self) -> Seq<(u128, u128)> {
        self.index.by_node.pairs@
    }

    /// Filings by producing agent.
    pub closed spec fn spec_by_agent(&self) -> Seq<(Seq<char>, u128)> {
        text_pairs(self.index.by_agent.pairs@)
    }

    /// Filings by tag.
    pub closed spec fn spec_by_tag(&self) -> Seq<(Seq<char>, u128)> {
        text_pairs(self.index.by_tag.pairs@)
    }

    /// The broadcast ring-buffer size offered to subscribers.
    pub closed spec fn spec_capacity(&self) -> int {
        self.channel_capacity as int
    }

    /// An empty store; `application/json` version `1.0.0` is registered.
    pub fn new(channel_capacity: usize) -> (r: Self)
        ensures
            r.spec_artifacts() == Map::<u128, MeshArtifact>::empty(),
            r.spec_snapshots() == Map::<u128, NodeSnapshot>::empty(),
            r.spec_patches() == Map::<u128, DiffPatch>::empty(),
            r.spec_states() == Map::<u128, MeshNodeState>::empty(),
            r.spec_outbox().len() == 0,
            r.spec_by_dimension().len() == 0,
            r.spec_by_task().len() == 0,
            r.spec_by_node().len() == 0,
            r.spec_by_agent().len() == 0,
            r.spec_by_tag().len() == 0,
            r.spec_capacity() == if channel_capacity == 0 { 1 } else { channel_capacity as int },
    {
        let mut registry = MeshSchemaRegistry::new();
        let _ = registry.register_schema("application/json", "1.0.0", "Default JSON schema");
        MeshArtifactStore {
            artifacts: IdMap::new(),
            snapshots: IdMap::new(),
            patches: IdMap::new(),
            index: ArtifactIndex::new(),
            schema_registry: registry,
            node_states: IdMap::new(),
            outbox: Vec::new(),
            channel_capacity: if channel_capacity == 0 { 1 } else { channel_capacity },
        }
    }

    /// The broadcast ring-buffer size offered to subscribers.
    pub fn channel_capacity(&self) -> (r: usize)
        ensures
            r == self.spec_capacity(),
    {
        self.channel_capacity
    }

    /// Register a schema.
    pub fn register_schema(&mut self, content_type: &str, version: &str, description: &str) -> (r: Result<SchemaDefinition, MeshError>)
        ensures
            r is Ok <==> parse_version_spec(version@) is Some,
            r matches Ok(d) ==> def_for(final(self).spec_schemas(), content_type@, d.version) == Some(d)
                && d.content_type@ == content_type@ && d.description@ == description@
                && Some(d.version) == parse_version_spec(version@),
            r is Err ==> final(self).spec_schemas() == old(self).spec_schemas(),
            final(self).spec_artifacts() == old(self).spec_artifacts(),
    {
        self.schema_registry.register_schema(content_type, version, description)
    }

    /// Check a schema version (as text) against the registry.
    pub fn validate_schema(&self, content_type: &str, version: &str) -> (r: Result<(), MeshError>)
        ensures
            r is Ok <==> (parse_version_spec(version@) matches Some(v) && def_for(self.spec_schemas(), content_type@, v) is Some),
            parse_version_spec(version@) is None ==> (r matches Err(e) && e matches MeshError::InvalidSchemaVersion(t) && t@ == version@),
    {
        let v = SchemaVersion::parse(version)?;
        self.schema_registry.validate(content_type, &v)
    }

    /// A copy of the schema registered for `content_type` and `version`.
    pub fn schema_definition(&self, content_type: &str, version: &str) -> (r: Option<SchemaDefinition>)
        ensures
            r == match parse_version_spec(version@) {
                Some(v) => def_for(self.spec_schemas(), content_type@, v),
                None => None,
            },
    {
        match SchemaVersion::parse(version) {
            Ok(v) => match self.schema_registry.schema(content_type, &v) {
                Some(d) => Some(d.clone()),
                None => None,
            },
            Err(_) => None,
        }
    }

    /// The state of node `node_id`, if tracked.
    pub fn node_state(&self, node_id: u128) -> (r: Option<MeshNodeState>)
        ensures
            r is Some <==> self.spec_states().contains_key(node_id),
            r matches Some(st) ==> st == self.spec_states()[node_id],
    {
        match self.node_states.get(node_id) {
            Some(st) => Some(*st),
            None => None,
        }
    }

    /// The tracked node states, by ascending node id.
    pub closed spec fn spec_state_list(&self) -> Seq<MeshNodeState> {
        self.node_states.entries().map_values(|e: (u128, MeshNodeState)| e.1)
    }

    /// Every tracked node state, by ascending node id.
    pub fn node_states(&self) -> (r: Vec<MeshNodeState>)
        ensures
            r@ == self.spec_state_list(),
            r@.len() == self.spec_states().len(),
    {
        let n = self.node_states.len();
        let mut out: Vec<MeshNodeState> = Vec::new();
        for i in 0..n
            invariant
                n == self.node_states.entries().len(),
                out@ == self.node_states.entries().take(i as int).map_values(|e: (u128, MeshNodeState)| e.1),
        {
            let e = self.node_states.entry_at(i);
            proof {
                assert(self.node_states.entries().take(i + 1).map_values(|e: (u128, MeshNodeState)| e.1)
                    =~= self.node_states.entries().take(i as int).map_values(|e: (u128, MeshNodeState)| e.1).push(e.1));
            }
            out.push(e.1);
        }
        proof {
            assert(self.node_states.entries().take(n as int) == self.node_states.entries());
        }
        out
    }

    /// The revision of a node (0 when not tracked).
    fn current_revision(&self, node_id: u128) -> (r: u64)
        ensures
            r == revision_of(self.spec_states(), node_id),
    {
        match self.node_states.get(node_id) {
            Some(st) => st.revision,
            None => 0,
        }
    }

    /// The state of a node, or a fresh one at revision 0.
    fn state_for(&self, node_id: u128) -> (r: MeshNodeState)
        ensures
            same_state(r, state_or_new(self.spec_states(), node_id)),
    {
        match self.node_states.get(node_id) {
            Some(st) => *st,
            None => MeshNodeState {
                node_id,
                revision: 0,
                last_artifact_id: None,
                last_snapshot_id: None,
                last_patch_id: None,
                updated_at_ms: now_ms(),
            },
        }
    }

    /// Store a node state, stamped now.
    fn put_state(&mut self, node_id: u128, st: MeshNodeState)
        ensures
            states_touched(old(self).spec_states(), final(self).spec_states(), node_id, st),
            final(self).spec_artifacts() == old(self).spec_artifacts(),
            final(self).spec_snapshots() == old(self).spec_snapshots(),
            final(self).spec_patches() == old(self).spec_patches(),
            final(self).spec_outbox() == old(self).spec_outbox(),
            final(self).index == old(self).index,
            final(self).spec_schemas() == old(self).spec_schemas(),
            final(self).spec_capacity() == old(self).spec_capacity(),
    {
        let mut st = st;
        st.updated_at_ms = now_ms();
        self.node_states.insert(node_id, st);
        proof {
            assert(self.node_states@.dom() =~= old(self).node_states@.dom().insert(node_id));
        }
    }

    /// Take the notifications queued since the last call, oldest first.
    pub fn take_notifications(&mut self) -> (r: Vec<MeshNotification>)
        ensures
            r@ == old(self).spec_outbox(),
            final(self).spec_outbox().len() == 0,
            final(self).spec_artifacts() == old(self).spec_artifacts(),
            final(self).spec_snapshots() == old(self).spec_snapshots(),
            final(self).spec_patches() == old(self).spec_patches(),
            final(self).spec_states() == old(self).spec_states(),
    {
        let mut out: Vec<MeshNotification> = Vec::new();
        std::mem::swap(&mut out, &mut self.outbox);
        out
    }

    fn notify_single(&mut self, id: ArtifactId, kind: MeshNotificationKind, dim: DimensionId, task: TaskId,
        node: Option<u128>, tags: Vec<String>, content_type: String)
        ensures
            final(self).spec_outbox().len() == old(self).spec_outbox().len() + 1,
            final(self).spec_outbox().drop_last() == old(self).spec_outbox(),
            note_of(final(self).spec_outbox().last(), id, kind, dim, task, node, texts(tags@), content_type@),
            final(self).spec_artifacts() == old(self).spec_artifacts(),
            final(self).spec_snapshots() == old(self).spec_snapshots(),
            final(self).spec_patches() == old(self).spec_patches(),
            final(self).spec_states() == old(self).spec_states(),
            final(self).index == old(self).index,
            final(self).spec_schemas() == old(self).spec_schemas(),
            final(self).spec_capacity() == old(self).spec_capacity(),
    {
        let note = MeshNotification { ids: vec![id], kind, dimension_id: dim, task_id: task, node_id: node, tags, content_type };
        self.outbox.push(note);
        proof {
            assert(self.outbox@.drop_last() =~= old(self).outbox@);
            assert(self.outbox@.last().ids@ =~= seq![id]);
        }
    }
}

/// What `produce` stores for `a`: `a` prepared, unconsumed, stamped with
/// the time of production.
pub open spec fn produced(a: MeshArtifact, b: MeshArtifact) -> bool {
    &&& prepared(a, MeshArtifact { created_at_ms: a.created_at_ms, consumed: a.consumed, ..b })
    &&& !b.consumed
}

/// The provenance `snapshot_node` and `patch` give their records.
pub open spec fn node_provenance(a: ArtifactProvenance, task: TaskId, node: u128) -> bool {
    &&& a.producing_task_id == task
    &&& a.producing_agent_id is None
    &&& a.producing_node_id == Some(node)
    &&& a.controller_id is None
    &&& a.schema_version@ == "1.0.0"@
}

fn node_record_provenance(task: TaskId, node: u128) -> (r: ArtifactProvenance)
    ensures
        node_provenance(r, task, node),
{
    proof {
        reveal_strlit("1.0.0");
    }
    ArtifactProvenance {
        producing_task_id: task,
        producing_agent_id: None,
        producing_node_id: Some(node),
        controller_id: None,
        schema_version: "1.0.0".to_owned(),
    }
}

/// A JSON array of the strings.
fn json_strings(v: &Vec<String>) -> (r: JsonValue)
    ensures
        r.model() == JsonModel::Array(v@.map_values(|s: String| JsonModel::Str(s@))),
{
    let mut items: Vec<JsonValue> = Vec::new();
    let n = v.len();
    for i in 0..n
        invariant
            n == v@.len(),
            items@.map_values(|x: JsonValue| x.model()) == v@.take(i as int).map_values(|s: String| JsonModel::Str(s@)),
    {
        let x = JsonValue::string(v[i].as_str());
        let ghost before = items@;
        proof {
            assert(before.map_values(|x: JsonValue| x.model()).len() == before.len());
            assert(v@.take(i as int).map_values(|s: String| JsonModel::Str(s@)).len() == i);
            assert(before.len() == i);
            assert(v@.take(i + 1) == v@.take(i as int).push(v@[i as int]));
            assert(x.model() == JsonModel::Str(v@[i as int]@));
        }
        items.push(x);
        proof {
            assert(items@ == before.push(x));
            assert forall|j: int| 0 <= j < i implies (#[trigger] items@[j]).model() == JsonModel::Str(v@[j]@) by {
                assert(before.map_values(|x: JsonValue| x.model())[j] == v@.take(i as int).map_values(|s: String| JsonModel::Str(s@))[j]);
                assert(before.map_values(|x: JsonValue| x.model())[j] == before[j].model());
                assert(v@.take(i as int).map_values(|s: String| JsonModel::Str(s@))[j] == JsonModel::Str(v@.take(i as int)[j]@));
                assert(v@.take(i as int)[j] == v@[j]);
                assert(items@[j] == before[j]);
            }
            assert(items@.map_values(|x: JsonValue| x.model())
                =~= v@.take(i + 1).map_values(|s: String| JsonModel::Str(s@)));
        }
    }
    proof {
        assert(v@.take(n as int) == v@);
        lemma_items_models(items@);
    }
    JsonValue::array(items)
}

/// An identifier as a JSON string, or `null`.
fn json_opt_id(id: Option<u128>) -> (r: JsonValue)
    ensures
        r.model() == match id {
            Some(x) => JsonModel::Str(uuid_text(x)),
            None => JsonModel::Null,
        },
{
    match id {
        Some(x) => JsonValue::from_uuid(x),
        None => JsonValue::Null,
    }
}

impl MeshArtifactStore {
    /// Produce an artifact and commit it: it is prepared, stamped, marked
    /// unconsumed, indexed, recorded as its node's latest artifact, logged
    /// and announced.
    pub fn produce(&mut self, artifact: MeshArtifact, log: &mut ActionLog) -> (r: ArtifactId)
        ensures
            r == artifact.id,
            final(self).spec_artifacts().dom() == old(self).spec_artifacts().dom().insert(r.0),
            produced(artifact, final(self).spec_artifacts()[r.0]),
            forall|k: u128| k != r.0 && #[trigger] old(self).spec_artifacts().contains_key(k)
                ==> final(self).spec_artifacts()[k] == old(self).spec_artifacts()[k],
            final(self).spec_by_dimension() == old(self).spec_by_dimension().push((artifact.dimension_id.0, r.0)),
            final(self).spec_by_task() == old(self).spec_by_task().push((artifact.task_id.0, r.0)),
            final(self).spec_by_node() == match artifact.node_id {
                Some(n) => old(self).spec_by_node().push((n, r.0)),
                None => old(self).spec_by_node(),
            },
            final(self).spec_by_agent() == match artifact.provenance.producing_agent_id {
                Some(g) => old(self).spec_by_agent().push((g@, r.0)),
                None => old(self).spec_by_agent(),
            },
            final(self).spec_by_tag() == old(self).spec_by_tag() + final(self).spec_artifacts()[r.0].tags@.map_values(filing_of(r.0)),
            match artifact.node_id {
                Some(n) => states_touched(old(self).spec_states(), final(self).spec_states(), n,
                    MeshNodeState { last_artifact_id: Some(r), ..state_or_new(old(self).spec_states(), n) }),
                None => final(self).spec_states() == old(self).spec_states(),
            },
            final(self).spec_snapshots() == old(self).spec_snapshots(),
            final(self).spec_patches() == old(self).spec_patches(),
            final(self).spec_schemas() == old(self).spec_schemas(),
            final(self).spec_capacity() == old(self).spec_capacity(),
            final(self).spec_outbox().drop_last() == old(self).spec_outbox(),
            final(self).spec_outbox().len() == old(self).spec_outbox().len() + 1,
            note_of(final(self).spec_outbox().last(), r, MeshNotificationKind::Produced, artifact.dimension_id, artifact.task_id,
                artifact.node_id, texts(final(self).spec_artifacts()[r.0].tags@), final(self).spec_artifacts()[r.0].content_type@),
            appended_one(old(log)@, final(log)@, EventType::ArtifactProduced, Some(artifact.dimension_id), Some(artifact.task_id)),
    {
        let mut a = prepare(artifact);
        a.created_at_ms = now_ms();
        a.consumed = false;
        let id = a.id;
        let dim = a.dimension_id;
        let task = a.task_id;
        let node = a.node_id;
        let tags = copy_strings(&a.tags);
        let ct = a.content_type.clone();
        let payload = JsonValue::object(vec![
            ("artifact_id".to_owned(), JsonValue::from_uuid(id.0)),
            ("dimension_id".to_owned(), JsonValue::from_uuid(dim.0)),
            ("node_id".to_owned(), json_opt_id(node)),
            ("tags".to_owned(), json_strings(&tags)),
        ]);
        self.index.insert(&a);
        let ghost stored = a;
        self.artifacts.insert(id.0, a);
        proof {
            assert(self.artifacts@.dom() =~= old(self).artifacts@.dom().insert(id.0));
        }
        if let Some(n) = node {
            let st = self.state_for(n);
            self.put_state(n, MeshNodeState { last_artifact_id: Some(id), ..st });
        }
        log.record(EventType::ArtifactProduced, Some(dim), Some(task), payload);
        self.notify_single(id, MeshNotificationKind::Produced, dim, task, node, tags, ct);
        id
    }

    /// Produce an artifact after checking its schema against the registry;
    /// nothing is stored when the check fails.
    pub fn produce_validated(&mut self, artifact: MeshArtifact, log: &mut ActionLog) -> (r: Result<ArtifactId, MeshError>)
        ensures
            r is Ok ==> final(self).spec_artifacts().contains_key(artifact.id.0)
                && appended_one(old(log)@, final(log)@, EventType::ArtifactProduced, Some(artifact.dimension_id), Some(artifact.task_id)),
            r matches Ok(id) ==> id == artifact.id,
            r is Err ==> final(self).spec_artifacts() == old(self).spec_artifacts() && final(log)@ == old(log)@,
            (r is Ok) == exists|p: MeshArtifact| prepared(artifact, p) && (parse_version_spec(p.provenance.schema_version@) matches Some(v)
                && def_for(old(self).spec_schemas(), p.content_type@, v) is Some),
    {
        let a = prepare(artifact);
        let ghost p = a;
        match self.validate_schema(a.content_type.as_str(), a.provenance.schema_version.as_str()) {
            Ok(()) => {
                let id = self.produce(a, log);
                Ok(id)
            },
            Err(e) => {
                proof {
                    assert forall|q: MeshArtifact| prepared(artifact, q) implies !(parse_version_spec(q.provenance.schema_version@) matches Some(v)
                        && def_for(old(self).spec_schemas(), q.content_type@, v) is Some) by {
                        assert(q.provenance.schema_version@ == p.provenance.schema_version@);
                        assert(q.content_type@ == p.content_type@);
                    }
                }
                Err(e)
            },
        }
    }

    /// Mark an artifact consumed and return it; an artifact is consumed once.
    pub fn consume(&mut self, id: ArtifactId, log: &mut ActionLog) -> (r: Result<MeshArtifact, MeshError>)
        ensures
            r is Ok <==> old(self).spec_artifacts().contains_key(id.0) && !old(self).spec_artifacts()[id.0].consumed,
            r matches Err(e) ==> final(self).spec_artifacts() == old(self).spec_artifacts() && final(log)@ == old(log)@
                && if old(self).spec_artifacts().contains_key(id.0) {
                    e == MeshError::AlreadyConsumed(id)
                } else {
                    e == MeshError::NotFound(id)
                },
            r matches Ok(a) ==> {
                &&& final(self).spec_artifacts() == old(self).spec_artifacts().insert(id.0,
                    MeshArtifact { consumed: true, ..old(self).spec_artifacts()[id.0] })
                &&& same_artifact(a, final(self).spec_artifacts()[id.0])
                &&& appended_one(old(log)@, final(log)@, EventType::ArtifactConsumed,
                    Some(old(self).spec_artifacts()[id.0].dimension_id), Some(old(self).spec_artifacts()[id.0].task_id))
                &&& final(log)@.last().payload.model() == JsonModel::Object(seq![
                    ("artifact_id"@, JsonModel::Str(uuid_text(id.0))),
                    ("consumer_task_id"@, JsonModel::Str(uuid_text(old(self).spec_artifacts()[id.0].task_id.0))),
                ])
                &&& final(self).spec_outbox().drop_last() == old(self).spec_outbox()
                &&& final(self).spec_outbox().last().kind == MeshNotificationKind::Consumed
            },
            final(self).spec_snapshots() == old(self).spec_snapshots(),
            final(self).spec_patches() == old(self).spec_patches(),
            final(self).spec_states() == old(self).spec_states(),
            final(self).spec_by_dimension() == old(self).spec_by_dimension(),
            final(self).spec_by_tag() == old(self).spec_by_tag(),
    {
        match self.artifacts.get(id.0) {
            Some(a) => {
                if a.consumed {
                    return Err(MeshError::AlreadyConsumed(id));
                }
            },
            None => {
                return Err(MeshError::NotFound(id));
            },
        }
        let ghost before = self.artifacts@;
        let a = match self.artifacts.remove(id.0) {
            Some(a) => a,
            None => {
                return Err(MeshError::NotFound(id));
            },
        };
        let mut a = a;
        a.consumed = true;
        let result = a.clone();
        self.artifacts.insert(id.0, a);
        proof {
            assert(self.artifacts@ =~= before.insert(id.0, MeshArtifact { consumed: true, ..before[id.0] }));
        }
        let members = vec![
            ("artifact_id".to_owned(), JsonValue::from_uuid(id.0)),
            ("consumer_task_id".to_owned(), JsonValue::from_uuid(result.task_id.0)),
        ];
        proof {
            lemma_members_models(members@);
            assert(members@.map_values(|m: (String, JsonValue)| (m.0@, m.1.model())) =~= seq![
                ("artifact_id"@, JsonModel::Str(uuid_text(id.0))),
                ("consumer_task_id"@, JsonModel::Str(uuid_text(result.task_id.0))),
            ]);
        }
        let payload = JsonValue::object(members);
        log.record(EventType::ArtifactConsumed, Some(result.dimension_id), Some(result.task_id), payload);
        let tags = copy_strings(&result.tags);
        let ct = result.content_type.clone();
        self.notify_single(id, MeshNotificationKind::Consumed, result.dimension_id, result.task_id, result.node_id, tags, ct);
        Ok(result)
    }

    /// Capture the state of a node as a snapshot at its current revision.
    pub fn snapshot_node(&mut self, node_id: u128, state: JsonValue, task_id: TaskId, dimension_id: DimensionId, log: &mut ActionLog) -> (r: ArtifactId)
        ensures
            final(self).spec_snapshots().dom() == old(self).spec_snapshots().dom().insert(r.0),
            ({
                let sn = final(self).spec_snapshots()[r.0];
                &&& sn.artifact_id == r
                &&& sn.dimension_id == dimension_id
                &&& sn.task_id == task_id
                &&& sn.node_id == node_id
                &&& sn.state == state
                &&& node_provenance(sn.provenance, task_id, node_id)
                &&& sn.revision == revision_of(old(self).spec_states(), node_id)
            }),
            forall|k: u128| k != r.0 && #[trigger] old(self).spec_snapshots().contains_key(k)
                ==> final(self).spec_snapshots()[k] == old(self).spec_snapshots()[k],
            states_touched(old(self).spec_states(), final(self).spec_states(), node_id,
                MeshNodeState { last_snapshot_id: Some(r), ..state_or_new(old(self).spec_states(), node_id) }),
            final(self).spec_artifacts() == old(self).spec_artifacts(),
            final(self).spec_patches() == old(self).spec_patches(),
            final(self).spec_outbox().drop_last() == old(self).spec_outbox(),
            note_of(final(self).spec_outbox().last(), r, MeshNotificationKind::Snapshot, dimension_id, task_id,
                Some(node_id), Seq::empty(), "application/json"@),
            appended_one(old(log)@, final(log)@, EventType::ArtifactSnapshot, Some(dimension_id), Some(task_id)),
            final(log)@.last().payload.model() == JsonModel::Object(seq![
                ("artifact_id"@, JsonModel::Str(uuid_text(r.0))),
                ("node_id"@, JsonModel::Str(uuid_text(node_id))),
                ("revision"@, JsonModel::Int(revision_of(old(self).spec_states(), node_id) as int)),
            ]),
    {
        proof {
            reveal_strlit("application/json");
        }
        let id = ArtifactId::new();
        let revision = self.current_revision(node_id);
        let snap = NodeSnapshot {
            artifact_id: id,
            dimension_id,
            task_id,
            node_id,
            state,
            provenance: node_record_provenance(task_id, node_id),
            captured_at_ms: now_ms(),
            revision,
        };
        self.snapshots.insert(id.0, snap);
        proof {
            assert(self.snapshots@.dom() =~= old(self).snapshots@.dom().insert(id.0));
        }
        let st = self.state_for(node_id);
        self.put_state(node_id, MeshNodeState { last_snapshot_id: Some(id), ..st });
        let members = vec![
            ("artifact_id".to_owned(), JsonValue::from_uuid(id.0)),
            ("node_id".to_owned(), JsonValue::from_uuid(node_id)),
            ("revision".to_owned(), JsonValue::from_u64(revision)),
        ];
        proof {
            lemma_members_models(members@);
            assert(members@.map_values(|m: (String, JsonValue)| (m.0@, m.1.model())) =~= seq![
                ("artifact_id"@, JsonModel::Str(uuid_text(id.0))),
                ("node_id"@, JsonModel::Str(uuid_text(node_id))),
                ("revision"@, JsonModel::Int(revision as int)),
            ]);
        }
        let payload = JsonValue::object(members);
        log.record(EventType::ArtifactSnapshot, Some(dimension_id), Some(task_id), payload);
        let ghost empty_tags = Seq::<String>::empty();
        let tags: Vec<String> = Vec::new();
        proof {
            assert(texts(tags@) =~= Seq::<Seq<char>>::empty());
        }
        self.notify_single(id, MeshNotificationKind::Snapshot, dimension_id, task_id, Some(node_id), tags, "application/json".to_owned());
        id
    }

    /// A copy of a snapshot.
    pub fn get_snapshot(&self, id: ArtifactId) -> (r: Result<NodeSnapshot, MeshError>)
        ensures
            r is Ok <==> self.spec_snapshots().contains_key(id.0),
            r matches Ok(sn) ==> sn == self.spec_snapshots()[id.0],
            r matches Err(e) ==> e == MeshError::NotFound(id),
    {
        match self.snapshots.get(id.0) {
            Some(sn) => Ok(sn.clone()),
            None => Err(MeshError::NotFound(id)),
        }
    }

    /// A copy of a patch record.
    pub fn get_patch(&self, id: ArtifactId) -> (r: Result<DiffPatch, MeshError>)
        ensures
            r is Ok <==> self.spec_patches().contains_key(id.0),
            r matches Ok(d) ==> same_patch(d, self.spec_patches()[id.0]),
            r matches Err(e) ==> e == MeshError::NotFound(id),
    {
        match self.patches.get(id.0) {
            Some(d) => Ok(d.clone()),
            None => Err(MeshError::NotFound(id)),
        }
    }

    /// A copy of an artifact, not marked consumed.
    pub fn get_artifact(&self, id: ArtifactId) -> (r: Result<MeshArtifact, MeshError>)
        ensures
            r is Ok <==> self.spec_artifacts().contains_key(id.0),
            r matches Ok(a) ==> same_artifact(a, self.spec_artifacts()[id.0]),
            r matches Err(e) ==> e == MeshError::NotFound(id),
    {
        match self.artifacts.get(id.0) {
            Some(a) => Ok(a.clone()),
            None => Err(MeshError::NotFound(id)),
        }
    }

    /// Number of stored artifacts.
    pub fn artifact_count(&self) -> (r: usize)
        ensures
            r == self.spec_artifacts().len(),
    {
        self.artifacts.len()
    }

    /// Artifacts filed under a dimension, in filing order.
    pub fn artifacts_for_dimension(&self, dimension_id: DimensionId) -> (r: Vec<ArtifactId>)
        ensures
            r@ == ids_under(self.spec_by_dimension(), dimension_id.0),
    {
        self.index.by_dimension.lookup(dimension_id.0)
    }

    /// Artifacts filed under a task, in filing order.
    pub fn artifacts_for_task(&self, task_id: TaskId) -> (r: Vec<ArtifactId>)
        ensures
            r@ == ids_under(self.spec_by_task(), task_id.0),
    {
        self.index.by_task.lookup(task_id.0)
    }

    /// Artifacts filed under a node, in filing order.
    pub fn artifacts_for_node(&self, node_id: u128) -> (r: Vec<ArtifactId>)
        ensures
            r@ == ids_under(self.spec_by_node(), node_id),
    {
        self.index.by_node.lookup(node_id)
    }

    /// Artifacts filed under a producing agent, in filing order.
    pub fn artifacts_for_agent(&self, agent_id: &str) -> (r: Vec<ArtifactId>)
        ensures
            r@ == ids_under_text(self.spec_by_agent(), agent_id@),
    {
        self.index.by_agent.lookup(agent_id)
    }

    /// Artifacts filed under a tag, in filing order.
    pub fn artifacts_with_tag(&self, tag: &str) -> (r: Vec<ArtifactId>)
        ensures
            r@ == ids_under_text(self.spec_by_tag(), tag@),
    {
        self.index.by_tag.lookup(tag)
    }
}

/// `n + 1`, or `n` at the top of the range.
pub open spec fn next_revision(n: u64) -> u64 {
    if n == u64::MAX { n } else { (n + 1) as u64 }
}

impl MeshArtifactStore {
    /// Move a node to its next revision, unless the edit conflicts and the
    /// strategy refuses conflicts; returns the base revision, the new
    /// revision and whether the edit conflicted.  The node is tracked from
    /// now on either way.
    fn advance_revision(&mut self, node_id: u128, expected: u64, strategy: ConflictStrategy, patch_id: ArtifactId)
        -> (r: Result<(u64, u64, bool), MeshError>)
        ensures
            ({
                let base = revision_of(old(self).spec_states(), node_id);
                &&& r is Err <==> (base != expected && strategy == ConflictStrategy::Reject)
                &&& r matches Err(e) ==> e == (MeshError::ConcurrentEdit { node_id, expected, current: base })
                    && final(self).spec_states().dom() == old(self).spec_states().dom().insert(node_id)
                    && (old(self).spec_states().contains_key(node_id) ==> final(self).spec_states() == old(self).spec_states())
                    && same_state(final(self).spec_states()[node_id], state_or_new(old(self).spec_states(), node_id))
                    && forall|k: u128| k != node_id && #[trigger] old(self).spec_states().contains_key(k)
                        ==> final(self).spec_states()[k] == old(self).spec_states()[k]
                &&& r matches Ok(t) ==> t == (base, next_revision(base), base != expected)
                    && states_touched(old(self).spec_states(), final(self).spec_states(), node_id,
                        MeshNodeState { revision: next_revision(base), last_patch_id: Some(patch_id), ..state_or_new(old(self).spec_states(), node_id) })
            }),
            final(self).spec_artifacts() == old(self).spec_artifacts(),
            final(self).spec_snapshots() == old(self).spec_snapshots(),
            final(self).spec_patches() == old(self).spec_patches(),
            final(self).spec_outbox() == old(self).spec_outbox(),
            final(self).index == old(self).index,
            final(self).spec_schemas() == old(self).spec_schemas(),
            final(self).spec_capacity() == old(self).spec_capacity(),
    {
        let st = self.state_for(node_id);
        let base = st.revision;
        let conflict = base != expected;
        if conflict && strategy == ConflictStrategy::Reject {
            if !self.node_states.contains_key(node_id) {
                self.put_state(node_id, st);
            }
            return Err(MeshError::ConcurrentEdit { node_id, expected, current: base });
        }
        let next = if base == u64::MAX { base } else { base + 1 };
        self.put_state(node_id, MeshNodeState { revision: next, last_patch_id: Some(patch_id), ..st });
        Ok((base, next, conflict))
    }

    /// Store a patch record, log it and announce it.
    fn store_patch(&mut self, patch: DiffPatch, log: &mut ActionLog)
        ensures
            final(self).spec_patches().dom() == old(self).spec_patches().dom().insert(patch.artifact_id.0),
            final(self).spec_patches()[patch.artifact_id.0] == patch,
            forall|k: u128| k != patch.artifact_id.0 && #[trigger] old(self).spec_patches().contains_key(k)
                ==> final(self).spec_patches()[k] == old(self).spec_patches()[k],
            final(self).spec_artifacts() == old(self).spec_artifacts(),
            final(self).spec_snapshots() == old(self).spec_snapshots(),
            final(self).spec_states() == old(self).spec_states(),
            final(self).spec_outbox().drop_last() == old(self).spec_outbox(),
            note_of(final(self).spec_outbox().last(), patch.artifact_id, MeshNotificationKind::Patch, patch.dimension_id,
                patch.task_id, Some(patch.node_id), Seq::empty(), "application/json"@),
            appended_one(old(log)@, final(log)@, EventType::ArtifactPatched, Some(patch.dimension_id), Some(patch.task_id)),
    {
        proof {
            reveal_strlit("application/json");
        }
        let id = patch.artifact_id;
        let dim = patch.dimension_id;
        let task = patch.task_id;
        let node = patch.node_id;
        let payload = JsonValue::object(vec![
            ("artifact_id".to_owned(), JsonValue::from_uuid(id.0)),
            ("node_id".to_owned(), JsonValue::from_uuid(node)),
            ("base_revision".to_owned(), JsonValue::from_u64(patch.base_revision)),
            ("new_revision".to_owned(), JsonValue::from_u64(patch.new_revision)),
            ("conflict".to_owned(), JsonValue::from_bool(patch.conflict)),
        ]);
        self.patches.insert(id.0, patch);
        proof {
            assert(self.patches@.dom() =~= old(self).patches@.dom().insert(id.0));
        }
        log.record(EventType::ArtifactPatched, Some(dim), Some(task), payload);
        let tags: Vec<String> = Vec::new();
        proof {
            assert(texts(tags@) =~= Seq::<Seq<char>>::empty());
        }
        self.notify_single(id, MeshNotificationKind::Patch, dim, task, Some(node), tags, "application/json".to_owned());
    }

    /// Record a patch of a node checked against the revision the editor
    /// started from: a conflicting edit is refused under `Reject` and
    /// accepted (and marked) under `LastWriteWins`.
    pub fn patch_with_revision(
        &mut self,
        node_id: u128,
        before: JsonValue,
        after: JsonValue,
        ops: Vec<PatchOp>,
        task_id: TaskId,
        dimension_id: DimensionId,
        expected_revision: u64,
        strategy: ConflictStrategy,
        log: &mut ActionLog,
    ) -> (r: Result<PatchApplyResult, MeshError>)
        ensures
            ({
                let base = revision_of(old(self).spec_states(), node_id);
                &&& r is Err <==> (base != expected_revision && strategy == ConflictStrategy::Reject)
                &&& r matches Err(e) ==> e == (MeshError::ConcurrentEdit { node_id, expected: expected_revision, current: base })
                    && final(self).spec_patches() == old(self).spec_patches()
                    && final(log)@ == old(log)@
                &&& r matches Ok(res) ==> {
                    let d = final(self).spec_patches()[res.artifact_id.0];
                    &&& res.new_revision == next_revision(base)
                    &&& res.conflict == (base != expected_revision)
                    &&& final(self).spec_patches().dom() == old(self).spec_patches().dom().insert(res.artifact_id.0)
                    &&& d.artifact_id == res.artifact_id && d.dimension_id == dimension_id && d.task_id == task_id
                    &&& d.node_id == node_id && node_provenance(d.provenance, task_id, node_id)
                    &&& d.base_revision == base && d.new_revision == next_revision(base) && d.conflict == res.conflict
                    &&& d.before == before && d.after == after && d.ops == ops
                    &&& states_touched(old(self).spec_states(), final(self).spec_states(), node_id,
                        MeshNodeState { revision: next_revision(base), last_patch_id: Some(res.artifact_id), ..state_or_new(old(self).spec_states(), node_id) })
                    &&& appended_one(old(log)@, final(log)@, EventType::ArtifactPatched, Some(dimension_id), Some(task_id))
                }
            }),
            final(self).spec_artifacts() == old(self).spec_artifacts(),
            final(self).spec_snapshots() == old(self).spec_snapshots(),
    {
        let id = ArtifactId::new();
        let (base, next, conflict) = self.advance_revision(node_id, expected_revision, strategy, id)?;
        let patch = DiffPatch {
            artifact_id: id,
            dimension_id,
            task_id,
            node_id,
            provenance: node_record_provenance(task_id, node_id),
            created_at_ms: now_ms(),
            base_revision: base,
            new_revision: next,
            conflict,
            before,
            after,
            ops,
        };
        let ghost states = self.node_states@;
        self.store_patch(patch, log);
        Ok(PatchApplyResult { artifact_id: id, new_revision: next, conflict })
    }

    /// Record a patch of a node at its current revision (never refused).
    pub fn patch(
        &mut self,
        node_id: u128,
        before: JsonValue,
        after: JsonValue,
        ops: Vec<PatchOp>,
        task_id: TaskId,
        dimension_id: DimensionId,
        log: &mut ActionLog,
    ) -> (r: ArtifactId)
        ensures
            ({
                let base = revision_of(old(self).spec_states(), node_id);
                let d = final(self).spec_patches()[r.0];
                &&& final(self).spec_patches().dom() == old(self).spec_patches().dom().insert(r.0)
                &&& d.artifact_id == r && d.node_id == node_id && d.task_id == task_id && d.dimension_id == dimension_id
                &&& d.base_revision == base && d.new_revision == next_revision(base) && !d.conflict
                &&& d.before == before && d.after == after && d.ops == ops
                &&& states_touched(old(self).spec_states(), final(self).spec_states(), node_id,
                    MeshNodeState { revision: next_revision(base), last_patch_id: Some(r), ..state_or_new(old(self).spec_states(), node_id) })
                &&& appended_one(old(log)@, final(log)@, EventType::ArtifactPatched, Some(dimension_id), Some(task_id))
            }),
            final(self).spec_artifacts() == old(self).spec_artifacts(),
            final(self).spec_snapshots() == old(self).spec_snapshots(),
    {
        let current = self.current_revision(node_id);
        match self.patch_with_revision(node_id, before, after, ops, task_id, dimension_id, current, ConflictStrategy::LastWriteWins, log) {
            Ok(res) => res.artifact_id,
            Err(_) => {
                proof {
                    assert(false);
                }
                ArtifactId(0)
            },
        }
    }
}


/// The first shared field in which `a` differs from `b`, both as `produce`
/// prepares them.
pub open spec fn batch_difference(b: MeshArtifact, a: MeshArtifact) -> Option<Seq<char>> {
    if a.dimension_id != b.dimension_id {
        Some("dimension_id"@)
    } else if a.task_id != b.task_id {
        Some("task_id"@)
    } else if a.node_id != b.node_id {
        Some("node_id"@)
    } else if prepared_content_type(a) != prepared_content_type(b) {
        Some("content_type"@)
    } else if normalized(a.tags@) != normalized(b.tags@) {
        Some("tags"@)
    } else {
        None
    }
}

/// The first difference from the first artifact among the first `n`
/// artifacts of a batch, artifact by artifact.
pub open spec fn batch_mismatch(s: Seq<MeshArtifact>, n: int) -> Option<Seq<char>>
    decreases n,
{
    if n <= 0 {
        None
    } else {
        match batch_mismatch(s, n - 1) {
            Some(f) => Some(f),
            None => batch_difference(s[0], s[n - 1]),
        }
    }
}

/// The filings of the artifacts of `s` in order, `f` giving each artifact's
/// own filings.
pub open spec fn filings_of<K>(s: Seq<MeshArtifact>, f: spec_fn(MeshArtifact) -> Seq<(K, u128)>) -> Seq<(K, u128)>
    decreases s.len(),
{
    if s.len() == 0 {
        Seq::empty()
    } else {
        filings_of(s.drop_last(), f) + f(s.last())
    }
}

/// An artifact's filing by dimension.
pub open spec fn dimension_filing() -> spec_fn(MeshArtifact) -> Seq<(u128, u128)> {
    |a: MeshArtifact| seq![(a.dimension_id.0, a.id.0)]
}

/// An artifact's filing by task.
pub open spec fn task_filing() -> spec_fn(MeshArtifact) -> Seq<(u128, u128)> {
    |a: MeshArtifact| seq![(a.task_id.0, a.id.0)]
}

/// An artifact's filing by node, if it has one.
pub open spec fn node_filing() -> spec_fn(MeshArtifact) -> Seq<(u128, u128)> {
    |a: MeshArtifact| match a.node_id {
        Some(n) => seq![(n, a.id.0)],
        None => Seq::empty(),
    }
}

/// An artifact's filing by producing agent, if it has one.
pub open spec fn agent_filing() -> spec_fn(MeshArtifact) -> Seq<(Seq<char>, u128)> {
    |a: MeshArtifact| match a.provenance.producing_agent_id {
        Some(g) => seq![(g@, a.id.0)],
        None => Seq::empty(),
    }
}

/// An artifact's filings by tag, once per tag in ascending order.
pub open spec fn tag_filing() -> spec_fn(MeshArtifact) -> Seq<(Seq<char>, u128)> {
    |a: MeshArtifact| normalized(a.tags@).map_values(|t: Seq<char>| (t, a.id.0))
}

/// No later artifact of `s` has the id of the artifact at `i`.
pub open spec fn last_with_id(s: Seq<MeshArtifact>, i: int) -> bool {
    forall|j: int| i < j < s.len() ==> #[trigger] s[j].id != s[i].id
}

/// Some artifact among the first `n` of `s` has id `k`.
pub open spec fn among_ids(s: Seq<MeshArtifact>, n: int, k: u128) -> bool {
    exists|j: int| 0 <= j < n && #[trigger] s[j].id.0 == k
}

/// The notification of a batch.
pub open spec fn batch_note_of(n: MeshNotification, ids: Seq<ArtifactId>, dim: DimensionId, task: TaskId,
    node: Option<u128>, tags: Seq<Seq<char>>, content_type: Seq<char>) -> bool {
    &&& n.ids@ == ids
    &&& n.kind == MeshNotificationKind::BatchProduced
    &&& n.dimension_id == dim
    &&& n.task_id == task
    &&& n.node_id == node
    &&& texts(n.tags@) == tags
    &&& n.content_type@ == content_type
}

/// Whether two tag lists read alike.
fn same_texts(a: &Vec<String>, b: &Vec<String>) -> (r: bool)
    ensures
        r == (texts(a@) == texts(b@)),
{
    if a.len() != b.len() {
        proof {
            assert(texts(a@).len() != texts(b@).len());
        }
        return false;
    }
    let n = a.len();
    for i in 0..n
        invariant
            n == a@.len() && n == b@.len(),
            forall|j: int| 0 <= j < i ==> a@[j]@ == b@[j]@,
    {
        if !str_eq(a[i].as_str(), b[i].as_str()) {
            proof {
                assert(texts(a@)[i as int] != texts(b@)[i as int]);
            }
            return false;
        }
    }
    proof {
        assert(texts(a@) =~= texts(b@));
    }
    true
}

/// A JSON array of the ids, each as its text.
fn json_ids(ids: &Vec<ArtifactId>) -> (r: JsonValue)
    ensures
        r.model() == JsonModel::Array(ids@.map_values(|a: ArtifactId| JsonModel::Str(uuid_text(a.0)))),
{
    let mut items: Vec<JsonValue> = Vec::new();
    let n = ids.len();
    for i in 0..n
        invariant
            n == ids@.len(),
            items@.map_values(|x: JsonValue| x.model())
                == ids@.take(i as int).map_values(|a: ArtifactId| JsonModel::Str(uuid_text(a.0))),
    {
        let x = JsonValue::from_uuid(ids[i].0);
        let ghost before = items@;
        proof {
            assert(before.map_values(|x: JsonValue| x.model()).len() == before.len());
            assert(ids@.take(i as int).map_values(|a: ArtifactId| JsonModel::Str(uuid_text(a.0))).len() == i);
            assert(before.len() == i);
            assert(ids@.take(i + 1) == ids@.take(i as int).push(ids@[i as int]));
            assert(x.model() == JsonModel::Str(uuid_text(ids@[i as int].0)));
        }
        items.push(x);
        proof {
            assert(items@ == before.push(x));
            assert forall|j: int| 0 <= j < i implies (#[trigger] items@[j]).model() == JsonModel::Str(uuid_text(ids@[j].0)) by {
                assert(before.map_values(|x: JsonValue| x.model())[j]
                    == ids@.take(i as int).map_values(|a: ArtifactId| JsonModel::Str(uuid_text(a.0)))[j]);
                assert(ids@.take(i as int)[j] == ids@[j]);
                assert(items@[j] == before[j]);
            }
            assert(items@.map_values(|x: JsonValue| x.model())
                =~= ids@.take(i + 1).map_values(|a: ArtifactId| JsonModel::Str(uuid_text(a.0))));
        }
    }
    proof {
        assert(ids@.take(n as int) == ids@);
        lemma_items_models(items@);
    }
    JsonValue::array(items)
}

impl MeshArtifactStore {
    /// Stamp a prepared artifact, mark it unconsumed, store and index it.
    fn commit_artifact(&mut self, a: MeshArtifact)
        ensures
            final(self).spec_artifacts() == old(self).spec_artifacts().insert(a.id.0, final(self).spec_artifacts()[a.id.0]),
            final(self).spec_artifacts()[a.id.0] == (MeshArtifact {
                created_at_ms: final(self).spec_artifacts()[a.id.0].created_at_ms, consumed: false, ..a }),
            final(self).spec_by_dimension() == old(self).spec_by_dimension().push((a.dimension_id.0, a.id.0)),
            final(self).spec_by_task() == old(self).spec_by_task().push((a.task_id.0, a.id.0)),
            final(self).spec_by_node() == old(self).spec_by_node() + node_filing()(a),
            final(self).spec_by_agent() == old(self).spec_by_agent() + agent_filing()(a),
            final(self).spec_by_tag() == old(self).spec_by_tag() + a.tags@.map_values(filing_of(a.id.0)),
            final(self).spec_states() == old(self).spec_states(),
            final(self).spec_snapshots() == old(self).spec_snapshots(),
            final(self).spec_patches() == old(self).spec_patches(),
            final(self).spec_outbox() == old(self).spec_outbox(),
            final(self).spec_schemas() == old(self).spec_schemas(),
            final(self).spec_capacity() == old(self).spec_capacity(),
    {
        let mut a = a;
        a.created_at_ms = now_ms();
        a.consumed = false;
        self.index.insert(&a);
        proof {
            assert(self.index.by_node.pairs@ =~= old(self).index.by_node.pairs@ + node_filing()(a));
            assert(text_pairs(self.index.by_agent.pairs@) =~= text_pairs(old(self).index.by_agent.pairs@) + agent_filing()(a));
        }
        let id = a.id;
        self.artifacts.insert(id.0, a);
        proof {
            assert(self.artifacts@ =~= old(self).artifacts@.insert(id.0, self.artifacts@[id.0]));
        }
    }

    /// Produce a batch of artifacts that share dimension, task, node,
    /// content type and tags (as prepared): all of them are committed, the
    /// node's latest artifact becomes the last of the batch, one log entry
    /// and one notification cover the batch.  A batch that is empty or
    /// whose artifacts differ in a shared field is refused and nothing is
    /// stored.
    pub fn produce_batch(&mut self, artifacts: Vec<MeshArtifact>, log: &mut ActionLog) -> (r: Result<Vec<ArtifactId>, MeshError>)
        ensures
            (r is Ok) <==> artifacts@.len() > 0 && batch_mismatch(artifacts@, artifacts@.len() as int) is None,
            r matches Err(e) ==> *final(self) == *old(self) && final(log)@ == old(log)@
                && if artifacts@.len() == 0 {
                    e is EmptyBatch
                } else {
                    e matches MeshError::BatchMismatch { field } && batch_mismatch(artifacts@, artifacts@.len() as int) == Some(field@)
                },
            r matches Ok(ids) ==> ({
                let s = artifacts@;
                let a0 = s[0];
                &&& ids@ == s.map_values(|a: MeshArtifact| a.id)
                &&& forall|k: u128| #[trigger] final(self).spec_artifacts().contains_key(k)
                    <==> (old(self).spec_artifacts().contains_key(k) || among_ids(s, s.len() as int, k))
                &&& forall|i: int| 0 <= i < s.len() && last_with_id(s, i)
                    ==> produced(s[i], #[trigger] final(self).spec_artifacts()[s[i].id.0])
                &&& forall|k: u128| #[trigger] old(self).spec_artifacts().contains_key(k) && !among_ids(s, s.len() as int, k)
                    ==> final(self).spec_artifacts()[k] == old(self).spec_artifacts()[k]
                &&& final(self).spec_by_dimension() == old(self).spec_by_dimension() + filings_of(s, dimension_filing())
                &&& final(self).spec_by_task() == old(self).spec_by_task() + filings_of(s, task_filing())
                &&& final(self).spec_by_node() == old(self).spec_by_node() + filings_of(s, node_filing())
                &&& final(self).spec_by_agent() == old(self).spec_by_agent() + filings_of(s, agent_filing())
                &&& final(self).spec_by_tag() == old(self).spec_by_tag() + filings_of(s, tag_filing())
                &&& match a0.node_id {
                    Some(n) => states_touched(old(self).spec_states(), final(self).spec_states(), n,
                        MeshNodeState { last_artifact_id: Some(s.last().id), ..state_or_new(old(self).spec_states(), n) }),
                    None => final(self).spec_states() == old(self).spec_states(),
                }
                &&& final(self).spec_outbox().drop_last() == old(self).spec_outbox()
                &&& final(self).spec_outbox().len() == old(self).spec_outbox().len() + 1
                &&& batch_note_of(final(self).spec_outbox().last(), ids@, a0.dimension_id, a0.task_id, a0.node_id,
                    normalized(a0.tags@), prepared_content_type(a0))
                &&& appended_one(old(log)@, final(log)@, EventType::ArtifactProduced, Some(a0.dimension_id), Some(a0.task_id))
            }),
            final(self).spec_snapshots() == old(self).spec_snapshots(),
            final(self).spec_patches() == old(self).spec_patches(),
            final(self).spec_schemas() == old(self).spec_schemas(),
            final(self).spec_capacity() == old(self).spec_capacity(),
    {
        let ghost s = artifacts@;
        let n = artifacts.len();
        if n == 0 {
            return Err(MeshError::EmptyBatch);
        }
        // Prepare every artifact.
        let mut rest = artifacts;
        let mut pre: Vec<MeshArtifact> = Vec::new();
        let mut i: usize = 0;
        while i < n
            invariant
                n == s.len(),
                i <= n,
                rest@ == s.skip(i as int),
                pre@.len() == i,
                forall|j: int| 0 <= j < i ==> prepared(s[j], #[trigger] pre@[j]),
                *self == *old(self),
                log@ == old(log)@,
            decreases n - i,
        {
            proof {
                assert(rest@[0] == s[i as int]);
            }
            let a = rest.remove(0);
            proof {
                assert(rest@ =~= s.skip(i + 1));
            }
            pre.push(prepare(a));
            i = i + 1;
        }
        // Check the shared fields against the first artifact.
        if let Some(f) = batch_difference_of(&pre, Ghost(s)) {
            return Err(MeshError::BatchMismatch { field: f });
        }
        let dim = pre[0].dimension_id;
        let task = pre[0].task_id;
        let node = pre[0].node_id;
        let ct = pre[0].content_type.clone();
        let tags = copy_strings(&pre[0].tags);
        // Commit.
        let ghost old_arts = self.artifacts@;
        let ghost old_dim = self.spec_by_dimension();
        let ghost old_task = self.spec_by_task();
        let ghost old_node = self.spec_by_node();
        let ghost old_agent = self.spec_by_agent();
        let ghost old_tag = self.spec_by_tag();
        let ghost ps = pre@;
        let mut rest = pre;
        let mut ids: Vec<ArtifactId> = Vec::new();
        let mut i: usize = 0;
        while i < n
            invariant
                n == s.len() && n == ps.len(),
                i <= n,
                rest@ == ps.skip(i as int),
                forall|j: int| 0 <= j < n ==> prepared(s[j], #[trigger] ps[j]),
                ids@ == s.take(i as int).map_values(|a: MeshArtifact| a.id),
                forall|k: u128| #[trigger] self.artifacts@.contains_key(k) <==> (old_arts.contains_key(k) || among_ids(s, i as int, k)),
                forall|j: int| 0 <= j < i && last_with_id(s.take(i as int), j)
                    ==> produced(s[j], #[trigger] self.artifacts@[s[j].id.0]),
                forall|k: u128| #[trigger] old_arts.contains_key(k) && !among_ids(s, i as int, k) ==> self.artifacts@[k] == old_arts[k],
                self.spec_by_dimension() == old_dim + filings_of(s.take(i as int), dimension_filing()),
                self.spec_by_task() == old_task + filings_of(s.take(i as int), task_filing()),
                self.spec_by_node() == old_node + filings_of(s.take(i as int), node_filing()),
                self.spec_by_agent() == old_agent + filings_of(s.take(i as int), agent_filing()),
                self.spec_by_tag() == old_tag + filings_of(s.take(i as int), tag_filing()),
                self.node_states@ == old(self).node_states@,
                self.snapshots@ == old(self).snapshots@,
                self.patches@ == old(self).patches@,
                self.outbox@ == old(self).outbox@,
                self.spec_schemas() == old(self).spec_schemas(),
                self.channel_capacity == old(self).channel_capacity,
            decreases n - i,
        {
            proof {
                assert(rest@[0] == ps[i as int]);
            }
            let a = rest.remove(0);
            proof {
                assert(rest@ =~= ps.skip(i + 1));
            }
            let ghost before = self.artifacts@;
            let ghost pa = a;
            let id = a.id;
            self.commit_artifact(a);
            ids.push(id);
            proof {
                let t = s.take(i + 1);
                assert(t.drop_last() =~= s.take(i as int));
                assert(t.last() == s[i as int]);
                assert(prepared(s[i as int], pa));
                assert(ids@ =~= t.map_values(|a: MeshArtifact| a.id));
                assert(tag_filing()(s[i as int]) =~= pa.tags@.map_values(filing_of(pa.id.0)));
                assert(dimension_filing()(s[i as int]) =~= seq![(pa.dimension_id.0, pa.id.0)]);
                assert(task_filing()(s[i as int]) =~= seq![(pa.task_id.0, pa.id.0)]);
                assert(node_filing()(s[i as int]) == node_filing()(pa));
                assert(agent_filing()(s[i as int]) == agent_filing()(pa));
                assert(filings_of(t, dimension_filing()) == filings_of(s.take(i as int), dimension_filing()) + dimension_filing()(s[i as int]));
                assert(filings_of(t, task_filing()) == filings_of(s.take(i as int), task_filing()) + task_filing()(s[i as int]));
                assert(filings_of(t, node_filing()) == filings_of(s.take(i as int), node_filing()) + node_filing()(s[i as int]));
                assert(filings_of(t, agent_filing()) == filings_of(s.take(i as int), agent_filing()) + agent_filing()(s[i as int]));
                assert(filings_of(t, tag_filing()) == filings_of(s.take(i as int), tag_filing()) + tag_filing()(s[i as int]));
                assert(self.spec_by_dimension() =~= old_dim + filings_of(t, dimension_filing()));
                assert(self.spec_by_task() =~= old_task + filings_of(t, task_filing()));
                assert(self.spec_by_node() =~= old_node + filings_of(t, node_filing()));
                assert(self.spec_by_agent() =~= old_agent + filings_of(t, agent_filing()));
                assert(self.spec_by_tag() =~= old_tag + filings_of(t, tag_filing()));
                let stored = self.artifacts@[id.0];
                assert(MeshArtifact { created_at_ms: s[i as int].created_at_ms, consumed: s[i as int].consumed, ..stored } == pa);
                assert(produced(s[i as int], stored));
                assert forall|k: u128| #[trigger] self.artifacts@.contains_key(k) <==> (old_arts.contains_key(k) || among_ids(s, i + 1, k)) by {
                    if among_ids(s, i + 1, k) && !among_ids(s, i as int, k) {
                        let j = choose|j: int| 0 <= j < i + 1 && #[trigger] s[j].id.0 == k;
                        assert(j == i);
                    }
                    if among_ids(s, i as int, k) {
                        let j = choose|j: int| 0 <= j < i && #[trigger] s[j].id.0 == k;
                        assert(s[j].id.0 == k && 0 <= j < i + 1);
                    }
                }
                assert forall|j: int| 0 <= j < i + 1 && last_with_id(t, j)
                    implies produced(s[j], #[trigger] self.artifacts@[s[j].id.0]) by {
                    if j < i {
                        assert(t[i as int].id != t[j].id);
                        assert(s[j].id != s[i as int].id);
                        assert forall|m: int| j < m < s.take(i as int).len() implies #[trigger] s.take(i as int)[m].id != s.take(i as int)[j].id by {
                            assert(t[m] == s.take(i as int)[m]);
                        }
                        assert(last_with_id(s.take(i as int), j));
                    }
                }
                assert forall|k: u128| #[trigger] old_arts.contains_key(k) && !among_ids(s, i + 1, k) implies self.artifacts@[k] == old_arts[k] by {
                    assert(s[i as int].id.0 != k);
                    if among_ids(s, i as int, k) {
                        let j = choose|j: int| 0 <= j < i && #[trigger] s[j].id.0 == k;
                        assert(0 <= j < i + 1 && s[j].id.0 == k);
                    }
                }
            }
            i = i + 1;
        }
        proof {
            assert(s.take(n as int) =~= s);
        }
        let last = ids[n - 1];
        if let Some(nd) = node {
            let st = self.state_for(nd);
            self.put_state(nd, MeshNodeState { last_artifact_id: Some(last), ..st });
        }
        let payload = JsonValue::object(vec![
            ("artifact_ids".to_owned(), json_ids(&ids)),
            ("dimension_id".to_owned(), JsonValue::from_uuid(dim.0)),
            ("node_id".to_owned(), json_opt_id(node)),
            ("count".to_owned(), JsonValue::from_u64(n as u64)),
        ]);
        log.record(EventType::ArtifactProduced, Some(dim), Some(task), payload);
        let note = MeshNotification {
            ids: ids.clone(),
            kind: MeshNotificationKind::BatchProduced,
            dimension_id: dim,
            task_id: task,
            node_id: node,
            tags,
            content_type: ct,
        };
        self.outbox.push(note);
        proof {
            assert(self.outbox@.drop_last() =~= old(self).outbox@);
        }
        Ok(ids)
    }
}


/// The first shared field in which a prepared batch differs from its first
/// artifact, artifact by artifact.
fn batch_difference_of(pre: &Vec<MeshArtifact>, Ghost(s): Ghost<Seq<MeshArtifact>>) -> (r: Option<&'static str>)
    requires
        pre@.len() == s.len(),
        s.len() > 0,
        forall|j: int| 0 <= j < s.len() ==> prepared(s[j], #[trigger] pre@[j]),
    ensures
        r matches Some(f) ==> batch_mismatch(s, s.len() as int) == Some(f@),
        r is None ==> batch_mismatch(s, s.len() as int) is None,
{
    let n = pre.len();
    let dim = pre[0].dimension_id;
    let task = pre[0].task_id;
    let node = pre[0].node_id;
    let ct = &pre[0].content_type;
    let tags = &pre[0].tags;
    proof {
        reveal_strlit("dimension_id");
        reveal_strlit("task_id");
        reveal_strlit("node_id");
        reveal_strlit("content_type");
        reveal_strlit("tags");
        assert(prepared(s[0], pre@[0]));
    }
    for i in 0..n
        invariant
            n == s.len() && n == pre@.len(),
            n > 0,
            forall|j: int| 0 <= j < n ==> prepared(s[j], #[trigger] pre@[j]),
            dim == s[0].dimension_id && task == s[0].task_id && node == s[0].node_id,
            ct@ == prepared_content_type(s[0]),
            texts(tags@) == normalized(s[0].tags@),
            batch_mismatch(s, i as int) is None,
    {
        let a = &pre[i];
        let ghost si = s[i as int];
        assert(prepared(si, *a));
        let mut field: Option<&'static str> = None;
        if a.dimension_id != dim {
            field = Some("dimension_id");
        } else if a.task_id != task {
            field = Some("task_id");
        } else if a.node_id != node {
            field = Some("node_id");
        } else if !str_eq(a.content_type.as_str(), ct.as_str()) {
            field = Some("content_type");
        } else if !same_texts(&a.tags, tags) {
            field = Some("tags");
        }
        proof {
            assert(batch_mismatch(s, i + 1) == batch_difference(s[0], si));
            match field {
                Some(f) => assert(batch_difference(s[0], si) == Some(f@)),
                None => assert(batch_difference(s[0], si) is None),
            }
        }
        if let Some(f) = field {
            proof {
                lemma_batch_mismatch_sticks(s, i + 1, n as int);
            }
            return Some(f);
        }
    }
    None
}

/// Once a batch mismatches, it mismatches the same way with more artifacts.
proof fn lemma_batch_mismatch_sticks(s: Seq<MeshArtifact>, i: int, n: int)
    requires
        0 <= i <= n,
        batch_mismatch(s, i) is Some,
    ensures
        batch_mismatch(s, n) == batch_mismatch(s, i),
    decreases n - i,
{
    if n > i {
        lemma_batch_mismatch_sticks(s, i, n - 1);
    }
}


// ---------------------------------------------------------------------------
// Garbage collection
// ---------------------------------------------------------------------------

/// `a` is filed under `e` by dimension.
pub open spec fn files_dimension() -> spec_fn(MeshArtifact, (u128, u128)) -> bool {
    |a: MeshArtifact, e: (u128, u128)| e.0 == a.dimension_id.0 && e.1 == a.id.0
}

/// `a` is filed under `e` by task.
pub open spec fn files_task() -> spec_fn(MeshArtifact, (u128, u128)) -> bool {
    |a: MeshArtifact, e: (u128, u128)| e.0 == a.task_id.0 && e.1 == a.id.0
}

/// `a` is filed under `e` by node.
pub open spec fn files_node() -> spec_fn(MeshArtifact, (u128, u128)) -> bool {
    |a: MeshArtifact, e: (u128, u128)| a.node_id == Some(e.0) && e.1 == a.id.0
}

/// `a` is filed under `e` by producing agent.
pub open spec fn files_agent() -> spec_fn(MeshArtifact, (Seq<char>, u128)) -> bool {
    |a: MeshArtifact, e: (Seq<char>, u128)| a.provenance.producing_agent_id is Some
        && (a.provenance.producing_agent_id->0)@ == e.0 && e.1 == a.id.0
}

/// `a` is filed under `e` by tag.
pub open spec fn files_tag() -> spec_fn(MeshArtifact, (Seq<char>, u128)) -> bool {
    |a: MeshArtifact, e: (Seq<char>, u128)| e.1 == a.id.0 && has_tag(a.tags@, e.0)
}

/// Filings that file none of the first `n` removed entries.
pub open spec fn unfiled_by<K>(r: Seq<(u128, MeshArtifact)>, n: int, files: spec_fn(MeshArtifact, (K, u128)) -> bool)
    -> spec_fn((K, u128)) -> bool {
    |e: (K, u128)| forall|j: int| 0 <= j < n ==> !files(#[trigger] r[j].1, e)
}

/// Filings that file no artifact of `arts` that garbage collection under
/// `p` removes.
pub open spec fn unfiled_after_gc<K>(p: GarbageCollectionPolicy, arts: Map<u128, MeshArtifact>,
    files: spec_fn(MeshArtifact, (K, u128)) -> bool) -> spec_fn((K, u128)) -> bool {
    |e: (K, u128)| !exists|k: u128| #[trigger] arts.contains_key(k) && gc_removes_artifact(p, arts[k]) && files(arts[k], e)
}

/// Garbage collection under `p` removes from `arts` an artifact with id
/// `id` on node `n`.
pub open spec fn gc_removes_last_of(p: GarbageCollectionPolicy, arts: Map<u128, MeshArtifact>, n: u128, id: ArtifactId) -> bool {
    exists|k: u128| #[trigger] arts.contains_key(k) && gc_removes_artifact(p, arts[k])
        && arts[k].node_id == Some(n) && arts[k].id == id
}

/// A node state after garbage collection: its latest artifact is
/// forgotten when it was removed.
pub open spec fn gc_state(p: GarbageCollectionPolicy, arts: Map<u128, MeshArtifact>, n: u128, st: MeshNodeState) -> MeshNodeState {
    if st.last_artifact_id matches Some(x) && gc_removes_last_of(p, arts, n, x) {
        MeshNodeState { last_artifact_id: None, ..st }
    } else {
        st
    }
}

/// A node state after the first `i` removed entries were walked.
pub open spec fn cleared_by(r: Seq<(u128, MeshArtifact)>, i: int, n: u128, st: MeshNodeState) -> MeshNodeState {
    if st.last_artifact_id matches Some(x)
        && exists|j: int| 0 <= j < i && (#[trigger] r[j].1).node_id == Some(n) && r[j].1.id == x {
        MeshNodeState { last_artifact_id: None, ..st }
    } else {
        st
    }
}

/// Filtering twice is filtering by both predicates.
pub proof fn lemma_filter_and<A>(s: Seq<A>, f: spec_fn(A) -> bool, g: spec_fn(A) -> bool)
    ensures
        s.filter(f).filter(g) == s.filter(|x: A| f(x) && g(x)),
    decreases s.len(),
{
    let h = |x: A| f(x) && g(x);
    if s.len() == 0 {
        reveal(Seq::filter);
        assert(s.filter(f).len() == 0);
    } else {
        let p = s.drop_last();
        let e = s.last();
        lemma_filter_and(p, f, g);
        assert(s == p.push(e));
        p.lemma_filter_push(e, f);
        p.lemma_filter_push(e, h);
        p.filter(f).lemma_filter_push(e, g);
    }
}

/// Filtering by a predicate that keeps everything keeps everything.
pub proof fn lemma_filter_all<A>(s: Seq<A>, f: spec_fn(A) -> bool)
    requires
        forall|x: A| #[trigger] f(x),
    ensures
        s.filter(f) == s,
    decreases s.len(),
{
    if s.len() == 0 {
        reveal(Seq::filter);
    } else {
        let p = s.drop_last();
        lemma_filter_all(p, f);
        assert(s == p.push(s.last()));
        p.lemma_filter_push(s.last(), f);
    }
}

/// Dropping the filings of one more removed entry.
proof fn lemma_unfiled_step<K>(s: Seq<(K, u128)>, r: Seq<(u128, MeshArtifact)>, i: int,
    files: spec_fn(MeshArtifact, (K, u128)) -> bool, g: spec_fn((K, u128)) -> bool)
    requires
        0 <= i < r.len(),
        forall|e: (K, u128)| #[trigger] g(e) == !files(r[i].1, e),
    ensures
        s.filter(unfiled_by(r, i, files)).filter(g) == s.filter(unfiled_by(r, i + 1, files)),
{
    lemma_filter_and(s, unfiled_by(r, i, files), g);
    let both = |x: (K, u128)| unfiled_by(r, i, files)(x) && g(x);
    assert forall|e: (K, u128)| #[trigger] both(e) == unfiled_by(r, i + 1, files)(e) by {
        if both(e) {
            assert forall|j: int| 0 <= j < i + 1 implies !files(#[trigger] r[j].1, e) by {
                if j < i {
                    assert(unfiled_by(r, i, files)(e));
                } else {
                    assert(g(e));
                }
            }
        }
        if unfiled_by(r, i + 1, files)(e) {
            assert(!files(r[i].1, e));
            assert(g(e));
        }
    }
    assert(both =~= unfiled_by(r, i + 1, files));
}

/// The removed entries of an artifact map, walked in order, are exactly the
/// artifacts garbage collection removes.
proof fn lemma_gc_removed(s: Seq<(u128, MeshArtifact)>, marks: Seq<bool>, p: GarbageCollectionPolicy, a: MeshArtifact)
    requires
        keys_sorted(s),
        marks.len() == s.len(),
        forall|i: int| 0 <= i < s.len() ==> marks[i] == gc_removes_artifact(p, #[trigger] s[i].1),
    ensures
        in_entries(marked(s, marks), a) <==> gc_removed_from(p, seq_to_map(s), a),
{
    let r = marked(s, marks);
    let m = seq_to_map(s);
    if exists|j: int| 0 <= j < r.len() && #[trigger] r[j].1 == a {
        let j = choose|j: int| 0 <= j < r.len() && #[trigger] r[j].1 == a;
        assert(r.contains(r[j]));
        lemma_marked_contains(s, marks, r[j]);
        let i = choose|i: int| 0 <= i < s.len() && marks[i] && #[trigger] s[i] == r[j];
        lemma_key_index(s, i);
        assert(m.contains_key(s[i].0) && gc_removes_artifact(p, m[s[i].0]) && m[s[i].0] == a);
    }
    if exists|k: u128| #[trigger] m.contains_key(k) && gc_removes_artifact(p, m[k]) && m[k] == a {
        let k = choose|k: u128| #[trigger] m.contains_key(k) && gc_removes_artifact(p, m[k]) && m[k] == a;
        let i = key_index(s, k);
        lemma_key_index(s, i);
        assert(marks[i]);
        lemma_marked_contains(s, marks, s[i]);
        assert(r.contains(s[i]));
        let j = choose|j: int| 0 <= j < r.len() && r[j] == s[i];
        assert(r[j].1 == a);
    }
}

/// Some entry of `rr` holds `a`.
pub open spec fn in_entries(rr: Seq<(u128, MeshArtifact)>, a: MeshArtifact) -> bool {
    exists|j: int| 0 <= j < rr.len() && #[trigger] rr[j].1 == a
}

/// Garbage collection under `p` removes `a` from `arts`.
pub open spec fn gc_removed_from(p: GarbageCollectionPolicy, arts: Map<u128, MeshArtifact>, a: MeshArtifact) -> bool {
    exists|k: u128| #[trigger] arts.contains_key(k) && gc_removes_artifact(p, arts[k]) && arts[k] == a
}

/// Whether dimension `d` is one of the policy's active dimensions.
fn dimension_listed(policy: &GarbageCollectionPolicy, d: DimensionId) -> (r: bool)
    ensures
        r == policy.active_dimensions@.contains(d),
{
    let n = policy.active_dimensions.len();
    for i in 0..n
        invariant
            n == policy.active_dimensions@.len(),
            forall|j: int| 0 <= j < i ==> policy.active_dimensions@[j] != d,
    {
        if policy.active_dimensions[i].0 == d.0 {
            proof {
                assert(policy.active_dimensions@[i as int] == d);
            }
            return true;
        }
    }
    false
}

/// Whether the policy removes a dimension's records: there are active
/// dimensions and this is not one of them.
fn dimension_inactive(policy: &GarbageCollectionPolicy, d: DimensionId) -> (r: bool)
    ensures
        r == (policy.active_dimensions@.len() > 0 && !policy.active_dimensions@.contains(d)),
{
    policy.active_dimensions.len() > 0 && !dimension_listed(policy, d)
}

/// Whether a time stamp lies before the policy's expiry cutoff.
fn expired(policy: &GarbageCollectionPolicy, t: u64) -> (r: bool)
    ensures
        r == (policy.expire_before_ms matches Some(c) && t < c),
{
    match policy.expire_before_ms {
        Some(c) => t < c,
        None => false,
    }
}

impl ArtifactIndex {
    /// Drop the filings of every artifact of `r`.
    fn remove_all(&mut self, r: &Vec<(u128, MeshArtifact)>)
        ensures
            final(self).by_dimension.pairs@ == old(self).by_dimension.pairs@.filter(unfiled_by(r@, r@.len() as int, files_dimension())),
            final(self).by_task.pairs@ == old(self).by_task.pairs@.filter(unfiled_by(r@, r@.len() as int, files_task())),
            final(self).by_node.pairs@ == old(self).by_node.pairs@.filter(unfiled_by(r@, r@.len() as int, files_node())),
            text_pairs(final(self).by_agent.pairs@) == text_pairs(old(self).by_agent.pairs@)
                .filter(unfiled_by(r@, r@.len() as int, files_agent())),
            text_pairs(final(self).by_tag.pairs@) == text_pairs(old(self).by_tag.pairs@)
                .filter(unfiled_by(r@, r@.len() as int, files_tag())),
    {
        let ghost d0 = self.by_dimension.pairs@;
        let ghost t0 = self.by_task.pairs@;
        let ghost n0 = self.by_node.pairs@;
        let ghost g0 = text_pairs(self.by_agent.pairs@);
        let ghost x0 = text_pairs(self.by_tag.pairs@);
        proof {
            lemma_filter_all(d0, unfiled_by(r@, 0, files_dimension()));
            lemma_filter_all(t0, unfiled_by(r@, 0, files_task()));
            lemma_filter_all(n0, unfiled_by(r@, 0, files_node()));
            lemma_filter_all(g0, unfiled_by(r@, 0, files_agent()));
            lemma_filter_all(x0, unfiled_by(r@, 0, files_tag()));
        }
        let n = r.len();
        for i in 0..n
            invariant
                n == r@.len(),
                self.by_dimension.pairs@ == d0.filter(unfiled_by(r@, i as int, files_dimension())),
                self.by_task.pairs@ == t0.filter(unfiled_by(r@, i as int, files_task())),
                self.by_node.pairs@ == n0.filter(unfiled_by(r@, i as int, files_node())),
                text_pairs(self.by_agent.pairs@) == g0.filter(unfiled_by(r@, i as int, files_agent())),
                text_pairs(self.by_tag.pairs@) == x0.filter(unfiled_by(r@, i as int, files_tag())),
        {
            let a = &r[i].1;
            self.remove(a);
            proof {
                let ii = i as int;
                lemma_unfiled_step(d0, r@, ii, files_dimension(), not_filing(a.dimension_id.0, a.id.0));
                lemma_unfiled_step(t0, r@, ii, files_task(), not_filing(a.task_id.0, a.id.0));
                match a.node_id {
                    Some(nd) => {
                        lemma_unfiled_step(n0, r@, ii, files_node(), not_filing(nd, a.id.0));
                    },
                    None => {
                        let always = |e: (u128, u128)| true;
                        lemma_filter_all(n0.filter(unfiled_by(r@, ii, files_node())), always);
                        lemma_unfiled_step(n0, r@, ii, files_node(), always);
                    },
                }
                match &a.provenance.producing_agent_id {
                    Some(gr) => {
                        let g = *gr;
                        let f = not_filing_any(seq![g], a.id.0);
                        assert forall|e: (Seq<char>, u128)| #[trigger] f(e) == !files_agent()(*a, e) by {
                            if has_tag(seq![g], e.0) {
                                let k = choose|k: int| 0 <= k < 1 && seq![g][k]@ == e.0;
                            }
                            if g@ == e.0 {
                                assert(seq![g][0]@ == e.0);
                            }
                        }
                        lemma_unfiled_step(g0, r@, ii, files_agent(), f);
                    },
                    None => {
                        let always = |e: (Seq<char>, u128)| true;
                        lemma_filter_all(g0.filter(unfiled_by(r@, ii, files_agent())), always);
                        lemma_unfiled_step(g0, r@, ii, files_agent(), always);
                    },
                }
                lemma_unfiled_step(x0, r@, ii, files_tag(), not_filing_any(a.tags@, a.id.0));
            }
        }
    }
}

impl MeshArtifactStore {
    /// Remove what the policy marks: artifacts that expired, that belong to
    /// an inactive dimension (unless persistent) or that are consumed and
    /// ephemeral; then snapshots that expired, belong to an inactive
    /// dimension or (when asked) describe an untracked node; then patches
    /// that expired or belong to an inactive dimension.  Removed artifacts
    /// leave the index, and a node whose latest artifact was removed
    /// forgets it.
    pub fn collect_garbage(&mut self, policy: &GarbageCollectionPolicy) -> (r: GarbageCollectionReport)
        ensures
            ({
                let arts = old(self).spec_artifacts();
                &&& final(self).spec_artifacts() == kept(arts, |a: MeshArtifact| !gc_removes_artifact(*policy, a))
                &&& r.artifacts_removed == arts.len() - final(self).spec_artifacts().len()
                &&& final(self).spec_by_dimension() == old(self).spec_by_dimension().filter(unfiled_after_gc(*policy, arts, files_dimension()))
                &&& final(self).spec_by_task() == old(self).spec_by_task().filter(unfiled_after_gc(*policy, arts, files_task()))
                &&& final(self).spec_by_node() == old(self).spec_by_node().filter(unfiled_after_gc(*policy, arts, files_node()))
                &&& final(self).spec_by_agent() == old(self).spec_by_agent().filter(unfiled_after_gc(*policy, arts, files_agent()))
                &&& final(self).spec_by_tag() == old(self).spec_by_tag().filter(unfiled_after_gc(*policy, arts, files_tag()))
                &&& final(self).spec_states().dom() == old(self).spec_states().dom()
                &&& forall|n: u128| #[trigger] old(self).spec_states().contains_key(n)
                    ==> final(self).spec_states()[n] == gc_state(*policy, arts, n, old(self).spec_states()[n])
            }),
            final(self).spec_snapshots() == kept(old(self).spec_snapshots(),
                |s: NodeSnapshot| !gc_removes_snapshot(*policy, old(self).spec_states().dom(), s)),
            r.snapshots_removed == old(self).spec_snapshots().len() - final(self).spec_snapshots().len(),
            final(self).spec_patches() == kept(old(self).spec_patches(), |d: DiffPatch| !gc_removes_patch(*policy, d)),
            r.patches_removed == old(self).spec_patches().len() - final(self).spec_patches().len(),
            final(self).spec_outbox() == old(self).spec_outbox(),
            final(self).spec_schemas() == old(self).spec_schemas(),
            final(self).spec_capacity() == old(self).spec_capacity(),
    {
        let ghost arts = self.artifacts@;
        let ghost ents = self.artifacts.entries();
        // Artifacts.
        let n = self.artifacts.len();
        let mut marks: Vec<bool> = Vec::new();
        for i in 0..n
            invariant
                n == self.artifacts.entries().len(),
                marks@.len() == i,
                forall|j: int| 0 <= j < i ==> marks@[j] == gc_removes_artifact(*policy, #[trigger] self.artifacts.entries()[j].1),
        {
            let a = &self.artifacts.entry_at(i).1;
            let gone = expired(policy, a.created_at_ms)
                || (dimension_inactive(policy, a.dimension_id) && a.immutability_tier <= 1)
                || (policy.remove_consumed_ephemeral && a.immutability_tier == 0 && a.consumed);
            marks.push(gone);
        }
        let removed = self.artifacts.remove_marked(&marks);
        proof {
            assert forall|k: u128| #[trigger] self.artifacts@.contains_key(k)
                == kept(arts, |a: MeshArtifact| !gc_removes_artifact(*policy, a)).contains_key(k) by {
                if arts.contains_key(k) {
                    let i = key_index(ents, k);
                    lemma_key_index(ents, i);
                }
            }
            assert(self.artifacts@ =~= kept(arts, |a: MeshArtifact| !gc_removes_artifact(*policy, a)));
        }
        // Index.
        let ghost idx = self.index;
        self.index.remove_all(&removed);
        proof {
            let rr = removed@;
            assert forall|a: MeshArtifact| #![trigger in_entries(rr, a)] #![trigger gc_removed_from(*policy, arts, a)]
                in_entries(rr, a) <==> gc_removed_from(*policy, arts, a) by {
                lemma_gc_removed(ents, marks@, *policy, a);
            }
            lemma_gc_index(rr, *policy, arts, files_dimension());
            lemma_gc_index(rr, *policy, arts, files_task());
            lemma_gc_index(rr, *policy, arts, files_node());
            lemma_gc_index(rr, *policy, arts, files_agent());
            lemma_gc_index(rr, *policy, arts, files_tag());
        }
        // Node states whose latest artifact was removed.
        let ghost states0 = self.node_states@;
        let ghost idx2 = self.index;
        let m = removed.len();
        for i in 0..m
            invariant
                m == removed@.len(),
                self.node_states@.dom() == states0.dom(),
                forall|nd: u128| #[trigger] states0.contains_key(nd)
                    ==> self.node_states@[nd] == cleared_by(removed@, i as int, nd, states0[nd]),
                self.artifacts@ == kept(arts, |a: MeshArtifact| !gc_removes_artifact(*policy, a)),
                self.snapshots@ == old(self).snapshots@,
                self.patches@ == old(self).patches@,
                self.outbox@ == old(self).outbox@,
                self.index == idx2,
                self.schema_registry == old(self).schema_registry,
                self.channel_capacity == old(self).channel_capacity,
        {
            let a = &removed[i].1;
            if let Some(nd) = a.node_id {
                if let Some(st) = self.node_states.get(nd) {
                    let hit = match st.last_artifact_id {
                        Some(x) => x.0 == a.id.0,
                        None => false,
                    };
                    if hit {
                        let cleared = MeshNodeState { last_artifact_id: None, ..*st };
                        self.node_states.insert(nd, cleared);
                    }
                }
            }
            proof {
                let ii = i as int;
                assert forall|k: u128| #[trigger] states0.contains_key(k)
                    implies self.node_states@[k] == cleared_by(removed@, ii + 1, k, states0[k]) by {
                    let before = cleared_by(removed@, ii, k, states0[k]);
                    if let Some(x) = states0[k].last_artifact_id {
                        if exists|j: int| 0 <= j < ii && (#[trigger] removed@[j].1).node_id == Some(k) && removed@[j].1.id == x {
                            let j = choose|j: int| 0 <= j < ii && (#[trigger] removed@[j].1).node_id == Some(k) && removed@[j].1.id == x;
                            assert(0 <= j < ii + 1);
                        } else if a.node_id == Some(k) && a.id == x {
                            assert(removed@[ii].1 == *a);
                        } else {
                            assert forall|j: int| 0 <= j < ii + 1 && (#[trigger] removed@[j].1).node_id == Some(k)
                                implies removed@[j].1.id != x by {
                                if j == ii {
                                    assert(removed@[ii].1 == *a);
                                }
                            }
                        }
                    }
                }
                assert(self.node_states@.dom() =~= states0.dom());
            }
        }
        proof {
            assert forall|nd: u128| #[trigger] states0.contains_key(nd)
                implies self.node_states@[nd] == gc_state(*policy, arts, nd, states0[nd]) by {
                let rr = removed@;
                if let Some(x) = states0[nd].last_artifact_id {
                    if exists|j: int| 0 <= j < rr.len() && (#[trigger] rr[j].1).node_id == Some(nd) && rr[j].1.id == x {
                        let j = choose|j: int| 0 <= j < rr.len() && (#[trigger] rr[j].1).node_id == Some(nd) && rr[j].1.id == x;
                        lemma_gc_removed(ents, marks@, *policy, rr[j].1);
                        assert(in_entries(rr, rr[j].1));
                        let k = choose|k: u128| #[trigger] arts.contains_key(k) && gc_removes_artifact(*policy, arts[k]) && arts[k] == rr[j].1;
                        assert(gc_removes_last_of(*policy, arts, nd, x));
                    }
                    if gc_removes_last_of(*policy, arts, nd, x) {
                        let k = choose|k: u128| #[trigger] arts.contains_key(k) && gc_removes_artifact(*policy, arts[k])
                            && arts[k].node_id == Some(nd) && arts[k].id == x;
                        lemma_gc_removed(ents, marks@, *policy, arts[k]);
                        assert(gc_removed_from(*policy, arts, arts[k]));
                        let j = choose|j: int| 0 <= j < rr.len() && #[trigger] rr[j].1 == arts[k];
                        assert(rr[j].1.node_id == Some(nd) && rr[j].1.id == x);
                    }
                }
            }
        }
        // Snapshots.
        let ghost snaps = self.snapshots@;
        let ghost sents = self.snapshots.entries();
        let ns = self.snapshots.len();
        let mut smarks: Vec<bool> = Vec::new();
        for i in 0..ns
            invariant
                ns == self.snapshots.entries().len(),
                smarks@.len() == i,
                self.node_states@.dom() == old(self).node_states@.dom(),
                forall|j: int| 0 <= j < i ==> smarks@[j]
                    == gc_removes_snapshot(*policy, old(self).node_states@.dom(), #[trigger] self.snapshots.entries()[j].1),
        {
            let sn = &self.snapshots.entry_at(i).1;
            let gone = expired(policy, sn.captured_at_ms)
                || dimension_inactive(policy, sn.dimension_id)
                || (policy.remove_orphaned_nodes && !self.node_states.contains_key(sn.node_id));
            smarks.push(gone);
        }
        let sremoved = self.snapshots.remove_marked(&smarks);
        proof {
            let keep = |s: NodeSnapshot| !gc_removes_snapshot(*policy, old(self).node_states@.dom(), s);
            assert forall|k: u128| #[trigger] self.snapshots@.contains_key(k) == kept(snaps, keep).contains_key(k) by {
                if snaps.contains_key(k) {
                    let i = key_index(sents, k);
                    lemma_key_index(sents, i);
                }
            }
            assert(self.snapshots@ =~= kept(snaps, keep));
        }
        // Patches.
        let ghost pats = self.patches@;
        let ghost pents = self.patches.entries();
        let np = self.patches.len();
        let mut pmarks: Vec<bool> = Vec::new();
        for i in 0..np
            invariant
                np == self.patches.entries().len(),
                pmarks@.len() == i,
                forall|j: int| 0 <= j < i ==> pmarks@[j] == gc_removes_patch(*policy, #[trigger] self.patches.entries()[j].1),
        {
            let d = &self.patches.entry_at(i).1;
            let gone = expired(policy, d.created_at_ms) || dimension_inactive(policy, d.dimension_id);
            pmarks.push(gone);
        }
        let premoved = self.patches.remove_marked(&pmarks);
        proof {
            let keep = |d: DiffPatch| !gc_removes_patch(*policy, d);
            assert forall|k: u128| #[trigger] self.patches@.contains_key(k) == kept(pats, keep).contains_key(k) by {
                if pats.contains_key(k) {
                    let i = key_index(pents, k);
                    lemma_key_index(pents, i);
                }
            }
            assert(self.patches@ =~= kept(pats, keep));
        }
        GarbageCollectionReport {
            artifacts_removed: removed.len(),
            snapshots_removed: sremoved.len(),
            patches_removed: premoved.len(),
        }
    }
}

/// The filings left after removing the walked entries are those left by
/// the policy over the whole map.
proof fn lemma_gc_index<K>(rr: Seq<(u128, MeshArtifact)>, p: GarbageCollectionPolicy, arts: Map<u128, MeshArtifact>,
    files: spec_fn(MeshArtifact, (K, u128)) -> bool)
    requires
        forall|a: MeshArtifact| #![trigger in_entries(rr, a)] #![trigger gc_removed_from(p, arts, a)]
            in_entries(rr, a) <==> gc_removed_from(p, arts, a),
    ensures
        unfiled_by(rr, rr.len() as int, files) == unfiled_after_gc(p, arts, files),
{
    assert forall|e: (K, u128)| #[trigger] unfiled_by(rr, rr.len() as int, files)(e) == unfiled_after_gc(p, arts, files)(e) by {
        if !unfiled_by(rr, rr.len() as int, files)(e) {
            let j = choose|j: int| 0 <= j < rr.len() && files(#[trigger] rr[j].1, e);
            let a = rr[j].1;
            assert(in_entries(rr, a));
            assert(gc_removed_from(p, arts, a));
            let k = choose|k: u128| #[trigger] arts.contains_key(k) && gc_removes_artifact(p, arts[k]) && arts[k] == a;
            assert(arts.contains_key(k) && gc_removes_artifact(p, arts[k]) && files(arts[k], e));
        }
        if !unfiled_after_gc(p, arts, files)(e) {
            let k = choose|k: u128| #[trigger] arts.contains_key(k) && gc_removes_artifact(p, arts[k]) && files(arts[k], e);
            let a = arts[k];
            assert(gc_removed_from(p, arts, a));
            assert(in_entries(rr, a));
            let j = choose|j: int| 0 <= j < rr.len() && #[trigger] rr[j].1 == a;
            assert(files(rr[j].1, e));
        }
    }
    assert(unfiled_by(rr, rr.len() as int, files) =~= unfiled_after_gc(p, arts, files));
}


// ---------------------------------------------------------------------------
// Replication
// ---------------------------------------------------------------------------

/// A snapshot or patch raises a node to `revision` when it is at least the
/// node's current revision.
pub open spec fn raised_to(st: MeshNodeState, revision: u64) -> bool {
    revision >= st.revision
}

impl MeshArtifactStore {
    /// Store an artifact copied from another store, as it is; an artifact
    /// with the same id is never overwritten.
    fn insert_replicated_artifact(&mut self, a: MeshArtifact, log: &mut ActionLog) -> (r: Result<(), MeshError>)
        ensures
            r is Err <==> old(self).spec_artifacts().contains_key(a.id.0),
            r matches Err(e) ==> e == MeshError::AlreadyExists(a.id) && *final(self) == *old(self) && final(log)@ == old(log)@,
            r is Ok ==> {
                &&& final(self).spec_artifacts() == old(self).spec_artifacts().insert(a.id.0, a)
                &&& final(self).spec_by_dimension() == old(self).spec_by_dimension().push((a.dimension_id.0, a.id.0))
                &&& final(self).spec_by_task() == old(self).spec_by_task().push((a.task_id.0, a.id.0))
                &&& final(self).spec_by_node() == old(self).spec_by_node() + node_filing()(a)
                &&& final(self).spec_by_agent() == old(self).spec_by_agent() + agent_filing()(a)
                &&& final(self).spec_by_tag() == old(self).spec_by_tag() + a.tags@.map_values(filing_of(a.id.0))
                &&& match a.node_id {
                    Some(n) => states_touched(old(self).spec_states(), final(self).spec_states(), n,
                        MeshNodeState { last_artifact_id: Some(a.id), ..state_or_new(old(self).spec_states(), n) }),
                    None => final(self).spec_states() == old(self).spec_states(),
                }
                &&& final(self).spec_outbox().drop_last() == old(self).spec_outbox()
                &&& final(self).spec_outbox().len() == old(self).spec_outbox().len() + 1
                &&& note_of(final(self).spec_outbox().last(), a.id, MeshNotificationKind::Replicated, a.dimension_id, a.task_id,
                    a.node_id, texts(a.tags@), a.content_type@)
                &&& appended_one(old(log)@, final(log)@, EventType::ArtifactProduced, Some(a.dimension_id), Some(a.task_id))
            },
            final(self).spec_snapshots() == old(self).spec_snapshots(),
            final(self).spec_patches() == old(self).spec_patches(),
            final(self).spec_schemas() == old(self).spec_schemas(),
            final(self).spec_capacity() == old(self).spec_capacity(),
    {
        let id = a.id;
        if self.artifacts.contains_key(id.0) {
            return Err(MeshError::AlreadyExists(id));
        }
        let dim = a.dimension_id;
        let task = a.task_id;
        let node = a.node_id;
        let tags = copy_strings(&a.tags);
        let ct = a.content_type.clone();
        self.index.insert(&a);
        proof {
            assert(self.index.by_node.pairs@ =~= old(self).index.by_node.pairs@ + node_filing()(a));
            assert(text_pairs(self.index.by_agent.pairs@) =~= text_pairs(old(self).index.by_agent.pairs@) + agent_filing()(a));
        }
        self.artifacts.insert(id.0, a);
        if let Some(n) = node {
            let st = self.state_for(n);
            self.put_state(n, MeshNodeState { last_artifact_id: Some(id), ..st });
        }
        let payload = JsonValue::object(vec![
            ("artifact_id".to_owned(), JsonValue::from_uuid(id.0)),
            ("replicated".to_owned(), JsonValue::from_bool(true)),
        ]);
        log.record(EventType::ArtifactProduced, Some(dim), Some(task), payload);
        self.notify_single(id, MeshNotificationKind::Replicated, dim, task, node, tags, ct);
        Ok(())
    }

    /// Store a snapshot copied from another store; the node moves to the
    /// snapshot's revision when that is not behind it.
    fn insert_replicated_snapshot(&mut self, sn: NodeSnapshot) -> (r: Result<(), MeshError>)
        ensures
            r is Err <==> old(self).spec_snapshots().contains_key(sn.artifact_id.0),
            r matches Err(e) ==> e == MeshError::AlreadyExists(sn.artifact_id) && *final(self) == *old(self),
            r is Ok ==> {
                let st = state_or_new(old(self).spec_states(), sn.node_id);
                &&& final(self).spec_snapshots() == old(self).spec_snapshots().insert(sn.artifact_id.0, sn)
                &&& states_touched(old(self).spec_states(), final(self).spec_states(), sn.node_id,
                    if raised_to(st, sn.revision) {
                        MeshNodeState { last_snapshot_id: Some(sn.artifact_id), revision: sn.revision, ..st }
                    } else {
                        st
                    })
                &&& final(self).spec_outbox().drop_last() == old(self).spec_outbox()
                &&& final(self).spec_outbox().len() == old(self).spec_outbox().len() + 1
                &&& note_of(final(self).spec_outbox().last(), sn.artifact_id, MeshNotificationKind::Replicated, sn.dimension_id,
                    sn.task_id, Some(sn.node_id), Seq::empty(), "application/json"@)
            },
            final(self).spec_artifacts() == old(self).spec_artifacts(),
            final(self).spec_patches() == old(self).spec_patches(),
            final(self).spec_schemas() == old(self).spec_schemas(),
            final(self).spec_capacity() == old(self).spec_capacity(),
    {
        proof {
            reveal_strlit("application/json");
        }
        let id = sn.artifact_id;
        if self.snapshots.contains_key(id.0) {
            return Err(MeshError::AlreadyExists(id));
        }
        let dim = sn.dimension_id;
        let task = sn.task_id;
        let node = sn.node_id;
        let revision = sn.revision;
        self.snapshots.insert(id.0, sn);
        let st = self.state_for(node);
        if revision >= st.revision {
            self.put_state(node, MeshNodeState { last_snapshot_id: Some(id), revision, ..st });
        } else {
            self.put_state(node, st);
        }
        let tags: Vec<String> = Vec::new();
        proof {
            assert(texts(tags@) =~= Seq::<Seq<char>>::empty());
        }
        self.notify_single(id, MeshNotificationKind::Replicated, dim, task, Some(node), tags, "application/json".to_owned());
        Ok(())
    }

    /// Store a patch record copied from another store; the node moves to
    /// the patch's new revision when that is not behind it.
    fn insert_replicated_patch(&mut self, d: DiffPatch) -> (r: Result<(), MeshError>)
        ensures
            r is Err <==> old(self).spec_patches().contains_key(d.artifact_id.0),
            r matches Err(e) ==> e == MeshError::AlreadyExists(d.artifact_id) && *final(self) == *old(self),
            r is Ok ==> {
                let st = state_or_new(old(self).spec_states(), d.node_id);
                &&& final(self).spec_patches() == old(self).spec_patches().insert(d.artifact_id.0, d)
                &&& states_touched(old(self).spec_states(), final(self).spec_states(), d.node_id,
                    if raised_to(st, d.new_revision) {
                        MeshNodeState { last_patch_id: Some(d.artifact_id), revision: d.new_revision, ..st }
                    } else {
                        st
                    })
                &&& final(self).spec_outbox().drop_last() == old(self).spec_outbox()
                &&& final(self).spec_outbox().len() == old(self).spec_outbox().len() + 1
                &&& note_of(final(self).spec_outbox().last(), d.artifact_id, MeshNotificationKind::Replicated, d.dimension_id,
                    d.task_id, Some(d.node_id), Seq::empty(), "application/json"@)
            },
            final(self).spec_artifacts() == old(self).spec_artifacts(),
            final(self).spec_snapshots() == old(self).spec_snapshots(),
            final(self).spec_schemas() == old(self).spec_schemas(),
            final(self).spec_capacity() == old(self).spec_capacity(),
    {
        proof {
            reveal_strlit("application/json");
        }
        let id = d.artifact_id;
        if self.patches.contains_key(id.0) {
            return Err(MeshError::AlreadyExists(id));
        }
        let dim = d.dimension_id;
        let task = d.task_id;
        let node = d.node_id;
        let revision = d.new_revision;
        self.patches.insert(id.0, d);
        let st = self.state_for(node);
        if revision >= st.revision {
            self.put_state(node, MeshNodeState { last_patch_id: Some(id), revision, ..st });
        } else {
            self.put_state(node, st);
        }
        let tags: Vec<String> = Vec::new();
        proof {
            assert(texts(tags@) =~= Seq::<Seq<char>>::empty());
        }
        self.notify_single(id, MeshNotificationKind::Replicated, dim, task, Some(node), tags, "application/json".to_owned());
        Ok(())
    }
}

/// The key under which a replicated record lands, for each source id.
pub open spec fn artifact_keys(m: Map<u128, MeshArtifact>) -> Map<u128, u128> {
    m.map_values(|a: MeshArtifact| a.id.0)
}

/// The key under which a replicated snapshot lands, for each source id.
pub open spec fn snapshot_keys(m: Map<u128, NodeSnapshot>) -> Map<u128, u128> {
    m.map_values(|s: NodeSnapshot| s.artifact_id.0)
}

/// The key under which a replicated patch lands, for each source id.
pub open spec fn patch_keys(m: Map<u128, DiffPatch>) -> Map<u128, u128> {
    m.map_values(|d: DiffPatch| d.artifact_id.0)
}

/// Replicating `ids` one after the other: a missing source record or a key
/// the target holds already stops the walk with that error; otherwise the
/// number replicated.
pub open spec fn replicate_walk(ids: Seq<ArtifactId>, keys: Map<u128, u128>, held: Set<u128>) -> Result<nat, MeshError>
    decreases ids.len(),
{
    if ids.len() == 0 {
        Ok(0)
    } else {
        let id = ids[0];
        if !keys.contains_key(id.0) {
            Err(MeshError::NotFound(id))
        } else if held.contains(keys[id.0]) {
            Err(MeshError::AlreadyExists(ArtifactId(keys[id.0])))
        } else {
            match replicate_walk(ids.drop_first(), keys, held.insert(keys[id.0])) {
                Ok(c) => Ok(c + 1),
                Err(e) => Err(e),
            }
        }
    }
}

/// The source keys and the target's held keys that replication of a
/// notification of `kind` consults.
pub open spec fn replication_keys(kind: MeshNotificationKind, source: MeshArtifactStore) -> Map<u128, u128> {
    match kind {
        MeshNotificationKind::Snapshot => snapshot_keys(source.spec_snapshots()),
        MeshNotificationKind::Patch => patch_keys(source.spec_patches()),
        _ => artifact_keys(source.spec_artifacts()),
    }
}

/// The keys of the target collection a notification of `kind` replicates
/// into.
pub open spec fn replication_held(kind: MeshNotificationKind, target: MeshArtifactStore) -> Set<u128> {
    match kind {
        MeshNotificationKind::Snapshot => target.spec_snapshots().dom(),
        MeshNotificationKind::Patch => target.spec_patches().dom(),
        _ => target.spec_artifacts().dom(),
    }
}

/// A replication link between two stores.
#[derive(Debug)]
pub struct MeshReplicator {
    /// The store records are copied from.
    pub source: MeshArtifactStore,
    /// The store records are copied to.
    pub target: MeshArtifactStore,
}

impl MeshReplicator {
    /// Link `source` to `target`.
    pub fn new(source: MeshArtifactStore, target: MeshArtifactStore) -> (r: Self)
        ensures
            r.source == source,
            r.target == target,
    {
        MeshReplicator { source, target }
    }

    /// Copy an artifact of the source into the target.
    pub fn replicate_artifact(&mut self, id: ArtifactId, log: &mut ActionLog) -> (r: Result<ArtifactId, MeshError>)
        ensures
            final(self).source == old(self).source,
            ({
                let src = old(self).source.spec_artifacts();
                let tgt = old(self).target.spec_artifacts();
                &&& (r is Ok) <==> (src.contains_key(id.0) && !tgt.contains_key(src[id.0].id.0))
                &&& r matches Ok(x) ==> x == id
                    && final(self).target.spec_artifacts().dom() == tgt.dom().insert(src[id.0].id.0)
                    && same_artifact(final(self).target.spec_artifacts()[src[id.0].id.0], src[id.0])
                    && (forall|k: u128| k != src[id.0].id.0 && #[trigger] tgt.contains_key(k)
                        ==> final(self).target.spec_artifacts()[k] == tgt[k])
                    && appended_one(old(log)@, final(log)@, EventType::ArtifactProduced, Some(src[id.0].dimension_id), Some(src[id.0].task_id))
                &&& r matches Err(e) ==> final(self).target == old(self).target && final(log)@ == old(log)@
                    && if src.contains_key(id.0) {
                        e == MeshError::AlreadyExists(src[id.0].id)
                    } else {
                        e == MeshError::NotFound(id)
                    }
            }),
    {
        let a = self.source.get_artifact(id)?;
        self.target.insert_replicated_artifact(a, log)?;
        proof {
            let k = old(self).source.spec_artifacts()[id.0].id.0;
            assert(final(self).target.spec_artifacts().dom() =~= old(self).target.spec_artifacts().dom().insert(k));
        }
        Ok(id)
    }

    /// Copy a snapshot of the source into the target.
    pub fn replicate_snapshot(&mut self, id: ArtifactId) -> (r: Result<ArtifactId, MeshError>)
        ensures
            final(self).source == old(self).source,
            ({
                let src = old(self).source.spec_snapshots();
                let tgt = old(self).target.spec_snapshots();
                &&& (r is Ok) <==> (src.contains_key(id.0) && !tgt.contains_key(src[id.0].artifact_id.0))
                &&& r matches Ok(x) ==> x == id
                    && final(self).target.spec_snapshots() == tgt.insert(src[id.0].artifact_id.0, src[id.0])
                &&& r matches Err(e) ==> final(self).target == old(self).target
                    && if src.contains_key(id.0) {
                        e == MeshError::AlreadyExists(src[id.0].artifact_id)
                    } else {
                        e == MeshError::NotFound(id)
                    }
            }),
    {
        let sn = self.source.get_snapshot(id)?;
        self.target.insert_replicated_snapshot(sn)?;
        Ok(id)
    }

    /// Copy a patch record of the source into the target.
    pub fn replicate_patch(&mut self, id: ArtifactId) -> (r: Result<ArtifactId, MeshError>)
        ensures
            final(self).source == old(self).source,
            ({
                let src = old(self).source.spec_patches();
                let tgt = old(self).target.spec_patches();
                &&& (r is Ok) <==> (src.contains_key(id.0) && !tgt.contains_key(src[id.0].artifact_id.0))
                &&& r matches Ok(x) ==> x == id
                    && final(self).target.spec_patches().dom() == tgt.dom().insert(src[id.0].artifact_id.0)
                    && same_patch(final(self).target.spec_patches()[src[id.0].artifact_id.0], src[id.0])
                    && (forall|k: u128| k != src[id.0].artifact_id.0 && #[trigger] tgt.contains_key(k)
                        ==> final(self).target.spec_patches()[k] == tgt[k])
                &&& r matches Err(e) ==> final(self).target == old(self).target
                    && if src.contains_key(id.0) {
                        e == MeshError::AlreadyExists(src[id.0].artifact_id)
                    } else {
                        e == MeshError::NotFound(id)
                    }
            }),
    {
        let d = self.source.get_patch(id)?;
        self.target.insert_replicated_patch(d)?;
        proof {
            let k = old(self).source.spec_patches()[id.0].artifact_id.0;
            assert(final(self).target.spec_patches().dom() =~= old(self).target.spec_patches().dom().insert(k));
        }
        Ok(id)
    }

    /// Copy every record a notification names, snapshots and patches by
    /// their kind and artifacts otherwise; stops at the first failure,
    /// keeping what was copied before it.
    pub fn replicate_notification(&mut self, note: &MeshNotification, log: &mut ActionLog) -> (r: Result<usize, MeshError>)
        ensures
            final(self).source == old(self).source,
            ({
                let walk = replicate_walk(note.ids@, replication_keys(note.kind, old(self).source),
                    replication_held(note.kind, old(self).target));
                &&& r matches Ok(c) ==> walk == Ok::<nat, MeshError>(c as nat)
                &&& r matches Err(e) ==> walk == Err::<nat, MeshError>(e)
                &&& r is Ok ==> replication_held(note.kind, final(self).target)
                    == replication_held(note.kind, old(self).target) + note.ids@.map_values(
                        |x: ArtifactId| replication_keys(note.kind, old(self).source)[x.0]).to_set()
            }),
    {
        let n = note.ids.len();
        let ghost keys = replication_keys(note.kind, old(self).source);
        let ghost held0 = replication_held(note.kind, old(self).target);
        let mut count: usize = 0;
        proof {
            assert(note.ids@.skip(0) =~= note.ids@);
            assert(note.ids@.take(0).map_values(|x: ArtifactId| keys[x.0]).to_set() =~= Set::<u128>::empty());
            assert(held0 + Set::<u128>::empty() =~= held0);
        }
        for i in 0..n
            invariant
                n == note.ids@.len(),
                count == i,
                self.source == old(self).source,
                held0 == replication_held(note.kind, old(self).target),
                keys == replication_keys(note.kind, self.source),
                replication_held(note.kind, self.target)
                    == held0 + note.ids@.take(i as int).map_values(|x: ArtifactId| keys[x.0]).to_set(),
                replicate_walk(note.ids@, keys, held0) == match replicate_walk(note.ids@.skip(i as int), keys,
                    replication_held(note.kind, self.target)) {
                    Ok(c) => Ok::<nat, MeshError>(c + i as nat),
                    Err(e) => Err::<nat, MeshError>(e),
                },
        {
            let id = note.ids[i];
            let ghost held = replication_held(note.kind, self.target);
            let ghost rest = note.ids@.skip(i as int);
            proof {
                assert(rest[0] == id);
                assert(rest.drop_first() =~= note.ids@.skip(i + 1));
            }
            let step = match note.kind {
                MeshNotificationKind::Snapshot => self.replicate_snapshot(id),
                MeshNotificationKind::Patch => self.replicate_patch(id),
                _ => self.replicate_artifact(id, log),
            };
            if let Err(e) = step {
                proof {
                    assert(replicate_walk(rest, keys, held) == Err::<nat, MeshError>(e));
                    assert(replicate_walk(note.ids@, keys, held0) == Err::<nat, MeshError>(e));
                    assert(keys == replication_keys(note.kind, old(self).source));
                    assert(held0 == replication_held(note.kind, old(self).target));
                }
                return Err(e);
            }
            proof {
                let k = keys[id.0];
                assert(replication_held(note.kind, self.target) =~= held.insert(k));
                let before = note.ids@.take(i as int).map_values(|x: ArtifactId| keys[x.0]);
                let after = note.ids@.take(i + 1).map_values(|x: ArtifactId| keys[x.0]);
                assert(note.ids@.take(i + 1) =~= note.ids@.take(i as int).push(id));
                assert(after =~= before.push(k));
                assert(after.to_set() =~= before.to_set().insert(k)) by {
                    assert forall|v: u128| after.to_set().contains(v) == before.to_set().insert(k).contains(v) by {
                        if after.contains(v) {
                            let j = choose|j: int| 0 <= j < after.len() && after[j] == v;
                            if j < before.len() {
                                assert(before[j] == v);
                            }
                        }
                        if before.contains(v) {
                            let j = choose|j: int| 0 <= j < before.len() && before[j] == v;
                            assert(after[j] == v);
                        }
                        if v == k {
                            assert(after[i as int] == v);
                        }
                    }
                }
                assert(replication_held(note.kind, self.target)
                    =~= held0 + note.ids@.take(i + 1).map_values(|x: ArtifactId| keys[x.0]).to_set());
            }
            count = count + 1;
        }
        proof {
            assert(note.ids@.skip(n as int) =~= Seq::<ArtifactId>::empty());
            assert(note.ids@.take(n as int) =~= note.ids@);
        }
        Ok(count)
    }
}


// ---------------------------------------------------------------------------
// Builder
// ---------------------------------------------------------------------------

/// Builds a [`MeshArtifact`] step by step.
#[derive(Debug)]
pub struct MeshArtifactBuilder {
    artifact: MeshArtifact,
}

impl MeshArtifactBuilder {
    /// The artifact built so far.
    pub closed spec fn spec_artifact(&self) -> MeshArtifact {
        self.artifact
    }

    /// Start an artifact of a dimension and task: fresh id, no node, JSON
    /// content, no tags, a null payload, schema `1.0.0`, session tier,
    /// unconsumed.
    pub fn new(dimension_id: DimensionId, task_id: TaskId) -> (r: Self)
        ensures
            ({
                let a = r.spec_artifact();
                &&& a.dimension_id == dimension_id && a.task_id == task_id
                &&& a.node_id is None
                &&& a.content_type@ == "application/json"@
                &&& a.tags@.len() == 0
                &&& a.payload == JsonValue::Null
                &&& a.provenance.producing_task_id == task_id
                &&& a.provenance.producing_agent_id is None
                &&& a.provenance.producing_node_id is None
                &&& a.provenance.controller_id is None
                &&& a.provenance.schema_version@ == "1.0.0"@
                &&& a.created_at_ms == 0
                &&& a.immutability_tier == 1
                &&& !a.consumed
            }),
    {
        proof {
            reveal_strlit("application/json");
            reveal_strlit("1.0.0");
        }
        MeshArtifactBuilder {
            artifact: MeshArtifact {
                id: ArtifactId::new(),
                dimension_id,
                task_id,
                node_id: None,
                content_type: "application/json".to_owned(),
                tags: Vec::new(),
                payload: JsonValue::Null,
                provenance: ArtifactProvenance {
                    producing_task_id: task_id,
                    producing_agent_id: None,
                    producing_node_id: None,
                    controller_id: None,
                    schema_version: "1.0.0".to_owned(),
                },
                created_at_ms: 0,
                immutability_tier: 1,
                consumed: false,
            },
        }
    }

    /// Place the artifact on a node, which also becomes the producing node.
    pub fn node_id(self, id: u128) -> (r: Self)
        ensures
            r.spec_artifact() == (MeshArtifact { node_id: Some(id), provenance: ArtifactProvenance {
                producing_node_id: Some(id), ..self.spec_artifact().provenance }, ..self.spec_artifact() }),
    {
        let mut b = self;
        b.artifact.node_id = Some(id);
        b.artifact.provenance.producing_node_id = Some(id);
        b
    }

    /// Set the content type.
    pub fn content_type(self, ct: &str) -> (r: Self)
        ensures
            r.spec_artifact().content_type@ == ct@,
            r.spec_artifact() == (MeshArtifact { content_type: r.spec_artifact().content_type, ..self.spec_artifact() }),
    {
        let mut b = self;
        b.artifact.content_type = ct.to_owned();
        b
    }

    /// Add a tag.
    pub fn tag(self, tag: &str) -> (r: Self)
        ensures
            r.spec_artifact().tags@.len() == self.spec_artifact().tags@.len() + 1,
            r.spec_artifact().tags@.drop_last() == self.spec_artifact().tags@,
            r.spec_artifact().tags@.last()@ == tag@,
            r.spec_artifact() == (MeshArtifact { tags: r.spec_artifact().tags, ..self.spec_artifact() }),
    {
        let mut b = self;
        b.artifact.tags.push(tag.to_owned());
        proof {
            assert(b.artifact.tags@.drop_last() =~= self.artifact.tags@);
        }
        b
    }

    /// Replace the tags.
    pub fn tags(self, tags: Vec<String>) -> (r: Self)
        ensures
            r.spec_artifact() == (MeshArtifact { tags, ..self.spec_artifact() }),
    {
        let mut b = self;
        b.artifact.tags = tags;
        b
    }

    /// Set the payload.
    pub fn payload(self, payload: JsonValue) -> (r: Self)
        ensures
            r.spec_artifact() == (MeshArtifact { payload, ..self.spec_artifact() }),
    {
        let mut b = self;
        b.artifact.payload = payload;
        b
    }

    /// Set the immutability tier (0 ephemeral, 1 session, 2 persistent).
    pub fn immutability_tier(self, tier: u8) -> (r: Self)
        ensures
            r.spec_artifact() == (MeshArtifact { immutability_tier: tier, ..self.spec_artifact() }),
    {
        let mut b = self;
        b.artifact.immutability_tier = tier;
        b
    }

    /// Set the producing agent.
    pub fn agent_id(self, agent_id: &str) -> (r: Self)
        ensures
            r.spec_artifact().provenance.producing_agent_id matches Some(g) && g@ == agent_id@,
            r.spec_artifact() == (MeshArtifact { provenance: ArtifactProvenance {
                producing_agent_id: r.spec_artifact().provenance.producing_agent_id, ..self.spec_artifact().provenance },
                ..self.spec_artifact() }),
    {
        let mut b = self;
        b.artifact.provenance.producing_agent_id = Some(agent_id.to_owned());
        b
    }

    /// Set the controller.
    pub fn controller_id(self, controller_id: u128) -> (r: Self)
        ensures
            r.spec_artifact() == (MeshArtifact { provenance: ArtifactProvenance {
                controller_id: Some(controller_id), ..self.spec_artifact().provenance }, ..self.spec_artifact() }),
    {
        let mut b = self;
        b.artifact.provenance.controller_id = Some(controller_id);
        b
    }

    /// Set the schema version.
    pub fn schema_version(self, version: &str) -> (r: Self)
        ensures
            r.spec_artifact().provenance.schema_version@ == version@,
            r.spec_artifact() == (MeshArtifact { provenance: ArtifactProvenance {
                schema_version: r.spec_artifact().provenance.schema_version, ..self.spec_artifact().provenance },
                ..self.spec_artifact() }),
    {
        let mut b = self;
        b.artifact.provenance.schema_version = version.to_owned();
        b
    }

    /// The artifact.
    pub fn build(self) -> (r: MeshArtifact)
        ensures
            r == self.spec_artifact(),
    {
        self.artifact
    }
}

} // verus!
