//! The state of a schema directory: its files with their hashes, the
//! entities that its statements define, and what changed since the state
//! that was recorded last.

use vstd::prelude::*;
use vstd::string::*;

use crate::digest::{hex_text, sha256, sha256_hex};
use crate::json::{json_quoted, quote_json};
use crate::order::{dedup_sorted, has_key, key_lt, keys, rows, rows_precede, sort_by_key, sorted, Keyed};
use crate::text::{chars_of, concat3, concat5, decimal, decimal_string, owned, str_eq, views};

verus! {

pub const SCHEMA_DIR: &'static str = "database/schema";

pub const MIGRATIONS_DIR: &'static str = "database/migrations";

pub const STATE_DIR: &'static str = "database/.surrealkit";

pub const SCHEMA_SNAPSHOT_PATH: &'static str = "database/.surrealkit/schema_snapshot.json";

pub const CATALOG_SNAPSHOT_PATH: &'static str = "database/.surrealkit/catalog_snapshot.json";

/// A schema file as it was read: where it is, what it says, and the hash of
/// what it says.
#[derive(Debug, Clone)]
pub struct SchemaFile {
    pub path: String,
    pub sql: String,
    pub hash: String,
}

/// The files of a schema directory with their hashes, in the order of
/// their paths.
#[derive(Debug, Clone, PartialEq, Eq)]
pub struct SchemaSnapshot {
    pub version: u32,
    pub files: Vec<SchemaSnapshotEntry>,
}

#[derive(Debug, Clone, PartialEq, Eq, PartialOrd, Ord)]
pub struct SchemaSnapshotEntry {
    pub path: String,
    pub hash: String,
}

/// The entities that a schema directory defines, in the order of their keys.
#[derive(Debug, Clone, PartialEq, Eq)]
pub struct CatalogSnapshot {
    pub version: u32,
    pub entities: Vec<EntityKey>,
}

/// One schema object: its kind, the table or level that owns it where it
/// has one, and its name.
#[derive(Debug, Clone, PartialEq, Eq, PartialOrd, Ord)]
pub struct EntityKey {
    pub kind: String,
    pub scope: Option<String>,
    pub name: String,
}

/// The paths that were added, changed and removed between two snapshots.
#[derive(Debug, Default, Clone, PartialEq, Eq)]
pub struct FileDiff {
    pub added: Vec<String>,
    pub modified: Vec<String>,
    pub removed: Vec<String>,
}

/// The key by which snapshot entries are ordered: the path, then the hash.
pub open spec fn entry_key(path: Seq<char>, hash: Seq<char>) -> Seq<Seq<char>> {
    seq![path, hash]
}

impl Keyed for SchemaSnapshotEntry {
    open spec fn key(&self) -> Seq<Seq<char>> {
        entry_key(self.path@, self.hash@)
    }

    fn precedes(&self, other: &Self) -> (r: bool) {
        let mut a: Vec<Vec<char>> = Vec::new();
        a.push(chars_of(self.path.as_str()));
        a.push(chars_of(self.hash.as_str()));
        let mut b: Vec<Vec<char>> = Vec::new();
        b.push(chars_of(other.path.as_str()));
        b.push(chars_of(other.hash.as_str()));
        assert(rows(a@) =~= self.key());
        assert(rows(b@) =~= other.key());
        rows_precede(&a, &b)
    }
}

/// An `EntityKey` as contracts see it.
pub struct EntityView {
    pub kind: Seq<char>,
    pub scope: Option<Seq<char>>,
    pub name: Seq<char>,
}

impl View for EntityKey {
    type V = EntityView;

    open spec fn view(&self) -> EntityView {
        EntityView {
            kind: self.kind@,
            scope: match self.scope {
                Some(s) => Some(s@),
                None => None,
            },
            name: self.name@,
        }
    }
}

/// The key by which entities are ordered: the kind, then the scope, an
/// entity without one before any that has one, then the name.
pub open spec fn entity_key(e: EntityView) -> Seq<Seq<char>> {
    match e.scope {
        None => seq![e.kind, Seq::empty(), Seq::empty(), e.name],
        Some(s) => seq![e.kind, seq!['1'], s, e.name],
    }
}

/// Entities with the same key are the same.
pub proof fn lemma_entity_key_injective(a: EntityView, b: EntityView)
    requires
        entity_key(a) == entity_key(b),
    ensures
        a == b,
{
    let ka = entity_key(a);
    let kb = entity_key(b);
    assert(ka[0] == kb[0]);
    assert(ka[1] == kb[1]);
    assert(ka[2] == kb[2]);
    assert(ka[3] == kb[3]);
    if a.scope is None && b.scope is Some {
        assert(ka[1].len() == 0);
        assert(kb[1].len() == 1);
    }
    if a.scope is Some && b.scope is None {
        assert(ka[1].len() == 1);
        assert(kb[1].len() == 0);
    }
}

fn entity_rows(e: &EntityKey) -> (out: Vec<Vec<char>>)
    ensures
        rows(out@) == entity_key(e@),
{
    let mut out: Vec<Vec<char>> = Vec::new();
    out.push(chars_of(e.kind.as_str()));
    match &e.scope {
        None => {
            out.push(Vec::new());
            out.push(Vec::new());
        },
        Some(s) => {
            let mut tag: Vec<char> = Vec::new();
            tag.push('1');
            out.push(tag);
            out.push(chars_of(s.as_str()));
        },
    }
    out.push(chars_of(e.name.as_str()));
    assert(rows(out@) =~= entity_key(e@));
    out
}

impl Keyed for EntityKey {
    open spec fn key(&self) -> Seq<Seq<char>> {
        entity_key(self@)
    }

    fn precedes(&self, other: &Self) -> (r: bool) {
        let a = entity_rows(self);
        let b = entity_rows(other);
        rows_precede(&a, &b)
    }
}

/// The bytes of a text in UTF-8.
pub open spec fn utf8(s: Seq<char>) -> Seq<u8> {
    vstd::utf8::encode_utf8(s)
}

/// A schema file from its path and its content: the hash is that of the content.
pub fn schema_file(path: String, sql: String) -> (file: SchemaFile)
    ensures
        file.path@ == path@,
        file.sql@ == sql@,
        file.hash@ == hex_text(sha256(utf8(sql@))),
{
    let hash = sha256_hex(sql.as_str().as_bytes());
    SchemaFile { path, sql, hash }
}

/// The keys of the entries that a list of files gives, in the order of the files.
pub open spec fn file_keys(files: Seq<SchemaFile>) -> Seq<Seq<Seq<char>>> {
    Seq::new(files.len(), |i: int| entry_key(files[i].path@, files[i].hash@))
}

/// Whether `snapshot` is the snapshot of `files`: one entry for each file,
/// in the order of path and hash.
pub open spec fn is_snapshot_of(files: Seq<SchemaFile>, snapshot: SchemaSnapshot) -> bool {
    &&& snapshot.version == 1
    &&& sorted(snapshot.files@)
    &&& keys(snapshot.files@).to_multiset() == file_keys(files).to_multiset()
}

/// The snapshot of a list of files.
pub fn snapshot_from_files(files: &Vec<SchemaFile>) -> (snapshot: SchemaSnapshot)
    ensures
        is_snapshot_of(files@, snapshot),
        snapshot.files@.len() == files@.len(),
{
    let mut entries: Vec<SchemaSnapshotEntry> = Vec::new();
    let mut i: usize = 0;
    while i < files.len()
        invariant
            i <= files.len(),
            entries@.len() == i,
            forall|j: int| 0 <= j < i ==> (#[trigger] entries@[j]).key() == file_keys(files@)[j],
        decreases files.len() - i,
    {
        entries.push(
            SchemaSnapshotEntry { path: files[i].path.clone(), hash: files[i].hash.clone() },
        );
        i += 1;
    }
    assert(keys(entries@) =~= file_keys(files@));
    let ghost unsorted = entries@;
    let sorted_entries = sort_by_key(entries);
    proof {
        vstd::seq_lib::to_multiset_len(unsorted);
        vstd::seq_lib::to_multiset_len(sorted_entries@);
    }
    SchemaSnapshot { version: 1, files: sorted_entries }
}

/// The snapshot to start from: the one that was stored, else an empty one.
pub fn load_schema_snapshot(stored: Option<SchemaSnapshot>) -> (snapshot: SchemaSnapshot)
    ensures
        match stored {
            Some(s) => snapshot == s,
            None => snapshot.version == 1 && snapshot.files@.len() == 0,
        },
{
    match stored {
        Some(s) => s,
        None => SchemaSnapshot { version: 1, files: Vec::new() },
    }
}

/// The catalog to start from: the one that was stored, else an empty one.
pub fn load_catalog_snapshot(stored: Option<CatalogSnapshot>) -> (snapshot: CatalogSnapshot)
    ensures
        match stored {
            Some(s) => snapshot == s,
            None => snapshot.version == 1 && snapshot.entities@.len() == 0,
        },
{
    match stored {
        Some(s) => s,
        None => CatalogSnapshot { version: 1, entities: Vec::new() },
    }
}

pub open spec fn entry_text(e: SchemaSnapshotEntry) -> Seq<char> {
    "    {\n      \"path\": "@ + json_quoted(e.path@) + ",\n      \"hash\": "@ + json_quoted(
        e.hash@,
    ) + "\n    }"@
}

pub open spec fn entries_text(files: Seq<SchemaSnapshotEntry>) -> Seq<char>
    decreases files.len(),
{
    if files.len() == 0 {
        Seq::empty()
    } else if files.len() == 1 {
        entry_text(files[0])
    } else {
        entries_text(files.drop_last()) + ",\n"@ + entry_text(files.last())
    }
}

/// The document in which a snapshot is stored: indented JSON with the
/// version first and a line feed at the end.
pub open spec fn schema_snapshot_text(snapshot: SchemaSnapshot) -> Seq<char> {
    "{\n  \"version\": "@ + decimal(snapshot.version as nat) + ",\n  \"files\": "@ + (
    if snapshot.files@.len() == 0 {
        "[]"@
    } else {
        "[\n"@ + entries_text(snapshot.files@) + "\n  ]"@
    }) + "\n}\n"@
}

/// The document in which the snapshot is stored.
pub fn save_schema_snapshot(snapshot: &SchemaSnapshot) -> (out: String)
    ensures
        out@ == schema_snapshot_text(*snapshot),
{
    let version = decimal_string(snapshot.version as u128);
    let mut out = concat3("{\n  \"version\": ", version.as_str(), ",\n  \"files\": ");
    if snapshot.files.len() == 0 {
        out.append("[]");
    } else {
        let mut list = owned("[\n");
        let mut i: usize = 0;
        assert(list@ + Seq::<char>::empty() =~= list@);
        assert(snapshot.files@.take(0) =~= Seq::<SchemaSnapshotEntry>::empty());
        while i < snapshot.files.len()
            invariant
                i <= snapshot.files.len(),
                list@ == "[\n"@ + entries_text(snapshot.files@.take(i as int)),
            decreases snapshot.files.len() - i,
        {
            if i > 0 {
                list.append(",\n");
            }
            let path = quote_json(snapshot.files[i].path.as_str());
            let hash = quote_json(snapshot.files[i].hash.as_str());
            let entry = concat5(
                "    {\n      \"path\": ",
                path.as_str(),
                ",\n      \"hash\": ",
                hash.as_str(),
                "\n    }",
            );
            list.append(entry.as_str());
            proof {
                let next = snapshot.files@.take(i + 1);
                assert(next.drop_last() =~= snapshot.files@.take(i as int));
                assert(next.last() == snapshot.files@[i as int]);
                assert(entry@ == entry_text(next.last()));
                if i == 0 {
                    assert("[\n"@ + Seq::<char>::empty() + entry@ =~= "[\n"@ + entries_text(next));
                } else {
                    assert("[\n"@ + entries_text(snapshot.files@.take(i as int)) + ",\n"@ + entry@
                        =~= "[\n"@ + entries_text(next));
                }
            }
            i += 1;
        }
        assert(snapshot.files@.take(snapshot.files.len() as int) =~= snapshot.files@);
        list.append("\n  ]");
        out.append(list.as_str());
    }
    out.append("\n}\n");
    out
}

pub open spec fn entity_text(e: EntityKey) -> Seq<char> {
    "    {\n      \"kind\": "@ + json_quoted(e.kind@) + ",\n      \"scope\": "@ + (match e.scope {
        Some(s) => json_quoted(s@),
        None => "null"@,
    }) + ",\n      \"name\": "@ + json_quoted(e.name@) + "\n    }"@
}

pub open spec fn entities_text(entities: Seq<EntityKey>) -> Seq<char>
    decreases entities.len(),
{
    if entities.len() == 0 {
        Seq::empty()
    } else if entities.len() == 1 {
        entity_text(entities[0])
    } else {
        entities_text(entities.drop_last()) + ",\n"@ + entity_text(entities.last())
    }
}

/// The document in which a catalog is stored: indented JSON with the
/// version first and a line feed at the end.
pub open spec fn catalog_snapshot_text(snapshot: CatalogSnapshot) -> Seq<char> {
    "{\n  \"version\": "@ + decimal(snapshot.version as nat) + ",\n  \"entities\": "@ + (
    if snapshot.entities@.len() == 0 {
        "[]"@
    } else {
        "[\n"@ + entities_text(snapshot.entities@) + "\n  ]"@
    }) + "\n}\n"@
}

/// The document in which the catalog is stored.
pub fn save_catalog_snapshot(snapshot: &CatalogSnapshot) -> (out: String)
    ensures
        out@ == catalog_snapshot_text(*snapshot),
{
    let version = decimal_string(snapshot.version as u128);
    let mut out = concat3("{\n  \"version\": ", version.as_str(), ",\n  \"entities\": ");
    if snapshot.entities.len() == 0 {
        out.append("[]");
    } else {
        let mut list = owned("[\n");
        let mut i: usize = 0;
        assert(list@ + Seq::<char>::empty() =~= list@);
        assert(snapshot.entities@.take(0) =~= Seq::<EntityKey>::empty());
        while i < snapshot.entities.len()
            invariant
                i <= snapshot.entities.len(),
                list@ == "[\n"@ + entities_text(snapshot.entities@.take(i as int)),
            decreases snapshot.entities.len() - i,
        {
            if i > 0 {
                list.append(",\n");
            }
            let e = &snapshot.entities[i];
            let kind = quote_json(e.kind.as_str());
            let scope = match &e.scope {
                Some(s) => quote_json(s.as_str()),
                None => owned("null"),
            };
            let name = quote_json(e.name.as_str());
            let mut entry = concat5(
                "    {\n      \"kind\": ",
                kind.as_str(),
                ",\n      \"scope\": ",
                scope.as_str(),
                ",\n      \"name\": ",
            );
            entry.append(name.as_str());
            entry.append("\n    }");
            list.append(entry.as_str());
            proof {
                let next = snapshot.entities@.take(i + 1);
                assert(next.drop_last() =~= snapshot.entities@.take(i as int));
                assert(next.last() == snapshot.entities@[i as int]);
                assert(entry@ == entity_text(next.last()));
                if i == 0 {
                    assert("[\n"@ + Seq::<char>::empty() + entry@ =~= "[\n"@ + entities_text(
                        next,
                    ));
                } else {
                    assert("[\n"@ + entities_text(snapshot.entities@.take(i as int)) + ",\n"@
                        + entry@ =~= "[\n"@ + entities_text(next));
                }
            }
            i += 1;
        }
        assert(snapshot.entities@.take(snapshot.entities.len() as int) =~= snapshot.entities@);
        list.append("\n  ]");
        out.append(list.as_str());
    }
    out.append("\n}\n");
    out
}

/// The hash that a snapshot records for a path: that of the last entry
/// with the path.
pub open spec fn hash_of(files: Seq<SchemaSnapshotEntry>, path: Seq<char>) -> Option<Seq<char>>
    decreases files.len(),
{
    if files.len() == 0 {
        None
    } else if files.last().path@ == path {
        Some(files.last().hash@)
    } else {
        hash_of(files.drop_last(), path)
    }
}

/// A path has a hash in a snapshot exactly when an entry has the path.
pub proof fn lemma_hash_of(files: Seq<SchemaSnapshotEntry>, path: Seq<char>)
    ensures
        hash_of(files, path) is Some <==> exists|i: int|
            0 <= i < files.len() && (#[trigger] files[i]).path@ == path,
    decreases files.len(),
{
    if files.len() > 0 {
        lemma_hash_of(files.drop_last(), path);
        if files.last().path@ != path {
            if hash_of(files, path) is Some {
                let i = choose|i: int|
                    0 <= i < files.drop_last().len() && (#[trigger] files.drop_last()[i]).path@
                        == path;
                assert(files[i].path@ == path);
            }
            if exists|i: int| 0 <= i < files.len() && (#[trigger] files[i]).path@ == path {
                let i = choose|i: int| 0 <= i < files.len() && (#[trigger] files[i]).path@ == path;
                assert(files.drop_last()[i].path@ == path);
            }
        } else {
            assert(files[files.len() - 1].path@ == path);
        }
    }
}

fn recorded_hash<'a>(files: &'a Vec<SchemaSnapshotEntry>, path: &str) -> (r: Option<&'a String>)
    ensures
        match r {
            Some(h) => hash_of(files@, path@) == Some(h@),
            None => hash_of(files@, path@) is None,
        },
{
    let mut i: usize = files.len();
    proof {
        assert(files@.take(files.len() as int) =~= files@);
    }
    while i > 0
        invariant
            i <= files.len(),
            hash_of(files@, path@) == hash_of(files@.take(i as int), path@),
        decreases i,
    {
        let ghost front = files@.take(i as int);
        assert(front.last() == files@[i - 1]);
        assert(front.drop_last() =~= files@.take(i - 1));
        i -= 1;
        if str_eq(files[i].path.as_str(), path) {
            return Some(&files[i].hash);
        }
    }
    None
}

/// Whether a list of paths is in strictly ascending order.
pub open spec fn ascending(paths: Seq<Seq<char>>) -> bool {
    forall|i: int, j: int|
        0 <= i < j < paths.len() ==> crate::text::lex_lt(#[trigger] paths[i], #[trigger] paths[j])
}

pub struct FileDiffView {
    pub added: Seq<Seq<char>>,
    pub modified: Seq<Seq<char>>,
    pub removed: Seq<Seq<char>>,
}

impl View for FileDiff {
    type V = FileDiffView;

    open spec fn view(&self) -> FileDiffView {
        FileDiffView {
            added: views(self.added@),
            modified: views(self.modified@),
            removed: views(self.removed@),
        }
    }
}

/// Whether `d` is the difference between two snapshots: the paths of the
/// new one that the old one lacks, those that both have under different
/// hashes, and those of the old one that the new one lacks, each list in
/// ascending order without repetition.
pub open spec fn is_diff(
    old: Seq<SchemaSnapshotEntry>,
    new: Seq<SchemaSnapshotEntry>,
    d: FileDiffView,
) -> bool {
    &&& ascending(d.added)
    &&& ascending(d.modified)
    &&& ascending(d.removed)
    &&& forall|p: Seq<char>| #[trigger]
        d.added.contains(p) <==> hash_of(new, p) is Some && hash_of(old, p) is None
    &&& forall|p: Seq<char>| #[trigger]
        d.modified.contains(p) <==> hash_of(new, p) is Some && hash_of(old, p) is Some && hash_of(
            old,
            p,
        ) != hash_of(new, p)
    &&& forall|p: Seq<char>| #[trigger]
        d.removed.contains(p) <==> hash_of(old, p) is Some && hash_of(new, p) is None
}

/// The paths of a snapshot in ascending order, each one once.
fn distinct_paths(files: &Vec<SchemaSnapshotEntry>) -> (out: Vec<String>)
    ensures
        ascending(views(out@)),
        forall|p: Seq<char>| #[trigger] views(out@).contains(p) <==> hash_of(files@, p) is Some,
{
    let mut paths: Vec<String> = Vec::new();
    let mut i: usize = 0;
    while i < files.len()
        invariant
            i <= files.len(),
            paths@.len() == i,
            forall|j: int| 0 <= j < i ==> (#[trigger] paths@[j])@ == files@[j].path@,
        decreases files.len() - i,
    {
        paths.push(files[i].path.clone());
        i += 1;
    }
    let ghost unsorted = paths@;
    let ordered = sort_by_key(paths);
    let out = dedup_sorted(ordered);
    proof {
        assert forall|a: int, b: int| 0 <= a < b < out@.len() implies crate::text::lex_lt(
            #[trigger] views(out@)[a],
            #[trigger] views(out@)[b],
        ) by {
            reveal_with_fuel(key_lt, 3);
            assert(key_lt(out@[a].key(), out@[b].key()));
            assert(out@[a].key().drop_first() =~= Seq::<Seq<char>>::empty());
            crate::text::lemma_lex_irreflexive(out@[a]@);
        }
        assert forall|p: Seq<char>| #[trigger]
            views(out@).contains(p) <==> hash_of(files@, p) is Some by {
            lemma_hash_of(files@, p);
            let k = seq![p];
            if views(out@).contains(p) {
                let w = choose|w: int| 0 <= w < out@.len() && views(out@)[w] == p;
                assert(out@[w].key() == k);
                assert(has_key(ordered@, k));
                let z = choose|z: int| 0 <= z < ordered@.len() && #[trigger] ordered@[z].key() == k;
                assert(ordered@[z].key()[0] == p);
                vstd::seq_lib::to_multiset_contains(ordered@, ordered@[z]);
                vstd::seq_lib::to_multiset_contains(unsorted, ordered@[z]);
                assert(ordered@.contains(ordered@[z]));
                assert(unsorted.contains(ordered@[z]));
                let u = choose|u: int| 0 <= u < unsorted.len() && unsorted[u] == ordered@[z];
                assert(files@[u].path@ == p);
            }
            if hash_of(files@, p) is Some {
                let u = choose|u: int| 0 <= u < files@.len() && (#[trigger] files@[u]).path@ == p;
                assert(unsorted[u]@ == p);
                vstd::seq_lib::to_multiset_contains(unsorted, unsorted[u]);
                vstd::seq_lib::to_multiset_contains(ordered@, unsorted[u]);
                assert(unsorted.contains(unsorted[u]));
                assert(ordered@.contains(unsorted[u]));
                let z = choose|z: int| 0 <= z < ordered@.len() && ordered@[z] == unsorted[u];
                assert(ordered@[z].key() == k);
                assert(has_key(out@, k));
                let w = choose|w: int| 0 <= w < out@.len() && #[trigger] out@[w].key() == k;
                assert(out@[w].key()[0] == p);
                assert(views(out@)[w] == p);
            }
        }
    }
    out
}

/// Appending a path that comes after every path of an ascending list keeps
/// it ascending.
proof fn lemma_ascending_push(paths: Seq<Seq<char>>, p: Seq<char>)
    requires
        ascending(paths),
        forall|i: int| 0 <= i < paths.len() ==> crate::text::lex_lt(#[trigger] paths[i], p),
    ensures
        ascending(paths.push(p)),
{
}

/// What changed between two snapshots.
pub fn diff_schema(old: &SchemaSnapshot, new: &SchemaSnapshot) -> (diff: FileDiff)
    ensures
        is_diff(old.files@, new.files@, diff@),
{
    let mut added: Vec<String> = Vec::new();
    let mut modified: Vec<String> = Vec::new();
    let mut removed: Vec<String> = Vec::new();
    let new_paths = distinct_paths(&new.files);
    let ghost np = views(new_paths@);
    let mut i: usize = 0;
    while i < new_paths.len()
        invariant
            i <= new_paths.len(),
            np == views(new_paths@),
            ascending(np),
            forall|p: Seq<char>| #[trigger] np.contains(p) <==> hash_of(new.files@, p) is Some,
            ascending(views(added@)),
            ascending(views(modified@)),
            forall|k: int|
                0 <= k < added@.len() ==> exists|j: int|
                    0 <= j < i && np[j] == #[trigger] views(added@)[k],
            forall|k: int|
                0 <= k < modified@.len() ==> exists|j: int|
                    0 <= j < i && np[j] == #[trigger] views(modified@)[k],
            forall|p: Seq<char>| #[trigger]
                views(added@).contains(p) <==> (exists|j: int| 0 <= j < i && np[j] == p)
                    && hash_of(old.files@, p) is None,
            forall|p: Seq<char>| #[trigger]
                views(modified@).contains(p) <==> (exists|j: int| 0 <= j < i && np[j] == p)
                    && hash_of(old.files@, p) is Some && hash_of(old.files@, p) != hash_of(
                    new.files@,
                    p,
                ),
        decreases new_paths.len() - i,
    {
        let path = &new_paths[i];
        let ghost p = path@;
        assert(np[i as int] == p);
        assert(np.contains(p));
        let was = recorded_hash(&old.files, path.as_str());
        let is = recorded_hash(&new.files, path.as_str());
        let ghost old_added = views(added@);
        let ghost old_modified = views(modified@);
        match (was, is) {
            (None, _) => {
                added.push(path.clone());
                proof {
                    assert(views(added@) =~= old_added.push(p));
                    assert forall|k: int| 0 <= k < old_added.len() implies crate::text::lex_lt(
                        #[trigger] old_added[k],
                        p,
                    ) by {
                        let j = choose|j: int| 0 <= j < i && np[j] == old_added[k];
                        assert(crate::text::lex_lt(np[j], np[i as int]));
                    }
                    lemma_ascending_push(old_added, p);
                    assert forall|k: int| 0 <= k < added@.len() implies exists|j: int|
                        0 <= j < i + 1 && np[j] == #[trigger] views(added@)[k] by {
                        if k < old_added.len() {
                            let j = choose|j: int| 0 <= j < i && np[j] == old_added[k];
                            assert(np[j] == views(added@)[k]);
                        } else {
                            assert(np[i as int] == views(added@)[k]);
                        }
                    }
                }
            },
            (Some(a), Some(b)) => {
                if !str_eq(a.as_str(), b.as_str()) {
                    modified.push(path.clone());
                    proof {
                        assert(views(modified@) =~= old_modified.push(p));
                        assert forall|k: int|
                            0 <= k < old_modified.len() implies crate::text::lex_lt(
                            #[trigger] old_modified[k],
                            p,
                        ) by {
                            let j = choose|j: int| 0 <= j < i && np[j] == old_modified[k];
                            assert(crate::text::lex_lt(np[j], np[i as int]));
                        }
                        lemma_ascending_push(old_modified, p);
                        assert forall|k: int| 0 <= k < modified@.len() implies exists|j: int|
                            0 <= j < i + 1 && np[j] == #[trigger] views(modified@)[k] by {
                            if k < old_modified.len() {
                                let j = choose|j: int| 0 <= j < i && np[j] == old_modified[k];
                                assert(np[j] == views(modified@)[k]);
                            } else {
                                assert(np[i as int] == views(modified@)[k]);
                            }
                        }
                    }
                }
            },
            (Some(_), None) => {},
        }
        proof {
            let new_added = views(added@);
            let new_modified = views(modified@);
            assert forall|q: Seq<char>| #[trigger]
                new_added.contains(q) <==> (exists|j: int| 0 <= j < i + 1 && np[j] == q)
                    && hash_of(old.files@, q) is None by {
                if new_added.contains(q) {
                    let k = choose|k: int| 0 <= k < new_added.len() && new_added[k] == q;
                    if k < old_added.len() {
                        assert(old_added[k] == q);
                        assert(old_added.contains(q));
                        let j = choose|j: int| 0 <= j < i && np[j] == q;
                        assert(0 <= j < i + 1 && np[j] == q);
                    } else {
                        assert(q == p);
                        assert(0 <= i < i + 1 && np[i as int] == q);
                    }
                }
                if (exists|j: int| 0 <= j < i + 1 && np[j] == q) && hash_of(old.files@, q) is None {
                    let j = choose|j: int| 0 <= j < i + 1 && np[j] == q;
                    if j < i {
                        assert(old_added.contains(q));
                        let k = choose|k: int| 0 <= k < old_added.len() && old_added[k] == q;
                        assert(new_added[k] == q);
                    } else {
                        assert(q == p);
                        assert(new_added[new_added.len() - 1] == q);
                    }
                }
            }
            assert forall|q: Seq<char>| #[trigger]
                new_modified.contains(q) <==> (exists|j: int| 0 <= j < i + 1 && np[j] == q)
                    && hash_of(old.files@, q) is Some && hash_of(old.files@, q) != hash_of(
                    new.files@,
                    q,
                ) by {
                if new_modified.contains(q) {
                    let k = choose|k: int| 0 <= k < new_modified.len() && new_modified[k] == q;
                    if k < old_modified.len() {
                        assert(old_modified[k] == q);
                        assert(old_modified.contains(q));
                        let j = choose|j: int| 0 <= j < i && np[j] == q;
                        assert(0 <= j < i + 1 && np[j] == q);
                    } else {
                        assert(q == p);
                        assert(0 <= i < i + 1 && np[i as int] == q);
                    }
                }
                if (exists|j: int| 0 <= j < i + 1 && np[j] == q) && hash_of(old.files@, q) is Some
                    && hash_of(old.files@, q) != hash_of(new.files@, q) {
                    let j = choose|j: int| 0 <= j < i + 1 && np[j] == q;
                    if j < i {
                        assert(old_modified.contains(q));
                        let k = choose|k: int|
                            0 <= k < old_modified.len() && old_modified[k] == q;
                        assert(new_modified[k] == q);
                    } else {
                        assert(q == p);
                        assert(new_modified[new_modified.len() - 1] == q);
                    }
                }
            }
        }
        i += 1;
    }
    let old_paths = distinct_paths(&old.files);
    let ghost op = views(old_paths@);
    let mut k: usize = 0;
    while k < old_paths.len()
        invariant
            k <= old_paths.len(),
            op == views(old_paths@),
            ascending(op),
            forall|p: Seq<char>| #[trigger] op.contains(p) <==> hash_of(old.files@, p) is Some,
            ascending(views(removed@)),
            forall|m: int|
                0 <= m < removed@.len() ==> exists|j: int|
                    0 <= j < k && op[j] == #[trigger] views(removed@)[m],
            forall|p: Seq<char>| #[trigger]
                views(removed@).contains(p) <==> (exists|j: int| 0 <= j < k && op[j] == p)
                    && hash_of(new.files@, p) is None,
        decreases old_paths.len() - k,
    {
        let path = &old_paths[k];
        let ghost p = path@;
        assert(op[k as int] == p);
        assert(op.contains(p));
        let ghost old_removed = views(removed@);
        if recorded_hash(&new.files, path.as_str()).is_none() {
            removed.push(path.clone());
            proof {
                assert(views(removed@) =~= old_removed.push(p));
                assert forall|m: int| 0 <= m < old_removed.len() implies crate::text::lex_lt(
                    #[trigger] old_removed[m],
                    p,
                ) by {
                    let j = choose|j: int| 0 <= j < k && op[j] == old_removed[m];
                    assert(crate::text::lex_lt(op[j], op[k as int]));
                }
                lemma_ascending_push(old_removed, p);
                assert forall|m: int| 0 <= m < removed@.len() implies exists|j: int|
                    0 <= j < k + 1 && op[j] == #[trigger] views(removed@)[m] by {
                    if m < old_removed.len() {
                        let j = choose|j: int| 0 <= j < k && op[j] == old_removed[m];
                        assert(op[j] == views(removed@)[m]);
                    } else {
                        assert(op[k as int] == views(removed@)[m]);
                    }
                }
            }
        }
        proof {
            let new_removed = views(removed@);
            assert forall|q: Seq<char>| #[trigger]
                new_removed.contains(q) <==> (exists|j: int| 0 <= j < k + 1 && op[j] == q)
                    && hash_of(new.files@, q) is None by {
                if new_removed.contains(q) {
                    let m = choose|m: int| 0 <= m < new_removed.len() && new_removed[m] == q;
                    if m < old_removed.len() {
                        assert(old_removed[m] == q);
                        assert(old_removed.contains(q));
                        let j = choose|j: int| 0 <= j < k && op[j] == q;
                        assert(0 <= j < k + 1 && op[j] == q);
                    } else {
                        assert(q == p);
                        assert(0 <= k < k + 1 && op[k as int] == q);
                    }
                }
                if (exists|j: int| 0 <= j < k + 1 && op[j] == q) && hash_of(new.files@, q) is None {
                    let j = choose|j: int| 0 <= j < k + 1 && op[j] == q;
                    if j < k {
                        assert(old_removed.contains(q));
                        let m = choose|m: int| 0 <= m < old_removed.len() && old_removed[m] == q;
                        assert(new_removed[m] == q);
                    } else {
                        assert(q == p);
                        assert(new_removed[new_removed.len() - 1] == q);
                    }
                }
            }
        }
        k += 1;
    }
    proof {
        let d = (FileDiff { added, modified, removed })@;
        assert forall|p: Seq<char>| #[trigger]
            d.added.contains(p) <==> hash_of(new.files@, p) is Some && hash_of(old.files@, p)
                is None by {
            if np.contains(p) {
                let j = choose|j: int| 0 <= j < np.len() && np[j] == p;
                assert(0 <= j < i && np[j] == p);
            }
            if exists|j: int| 0 <= j < i && np[j] == p {
                let j = choose|j: int| 0 <= j < i && np[j] == p;
                assert(np.contains(p));
            }
        }
        assert forall|p: Seq<char>| #[trigger]
            d.modified.contains(p) <==> hash_of(new.files@, p) is Some && hash_of(old.files@, p)
                is Some && hash_of(old.files@, p) != hash_of(new.files@, p) by {
            if np.contains(p) {
                let j = choose|j: int| 0 <= j < np.len() && np[j] == p;
                assert(0 <= j < i && np[j] == p);
            }
            if exists|j: int| 0 <= j < i && np[j] == p {
                let j = choose|j: int| 0 <= j < i && np[j] == p;
                assert(np.contains(p));
            }
        }
        assert forall|p: Seq<char>| #[trigger]
            d.removed.contains(p) <==> hash_of(old.files@, p) is Some && hash_of(new.files@, p)
                is None by {
            if op.contains(p) {
                let j = choose|j: int| 0 <= j < op.len() && op[j] == p;
                assert(0 <= j < k && op[j] == p);
            }
            if exists|j: int| 0 <= j < k && op[j] == p {
                let j = choose|j: int| 0 <= j < k && op[j] == p;
                assert(op.contains(p));
            }
        }
    }
    FileDiff { added, modified, removed }
}

/// The difference between a snapshot and itself is empty.
pub proof fn lemma_diff_of_same_is_empty(files: Seq<SchemaSnapshotEntry>, d: FileDiffView)
    requires
        is_diff(files, files, d),
    ensures
        d.added.len() == 0,
        d.modified.len() == 0,
        d.removed.len() == 0,
{
    if d.added.len() > 0 {
        assert(d.added.contains(d.added[0]));
    }
    if d.modified.len() > 0 {
        assert(d.modified.contains(d.modified[0]));
    }
    if d.removed.len() > 0 {
        assert(d.removed.contains(d.removed[0]));
    }
}

/// The snapshot of a list of files does not depend on the order of the
/// files: lists that hold the same files have snapshots with the same
/// entries in the same places.
pub proof fn lemma_snapshot_ignores_order(
    first: Seq<SchemaFile>,
    second: Seq<SchemaFile>,
    a: SchemaSnapshot,
    b: SchemaSnapshot,
)
    requires
        is_snapshot_of(first, a),
        is_snapshot_of(second, b),
        file_keys(first).to_multiset() == file_keys(second).to_multiset(),
    ensures
        a.version == b.version,
        keys(a.files@) == keys(b.files@),
{
    crate::order::lemma_sorted_keys_unique(a.files@, b.files@);
}

} // verus!
