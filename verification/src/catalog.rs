//! The catalog: which entities the statements of a schema define, which
//! ones a newer catalog no longer has, and the statements that remove them.

use vstd::prelude::*;
use vstd::string::*;

use crate::error::{error_of, ErrorKind, KitError, KitErrorView};
use crate::order::{dedup_sorted, has_key, keys, sort_by_key, strictly_sorted, Keyed};
use crate::schema_state::{
    entity_key, CatalogSnapshot, EntityKey, EntityView, SchemaFile,
};
use crate::statements::{
    split_statements, statements, strip_line_comments, tokenize, without_comments,
};
use crate::text::{chars_of, concat3, concat5, first_index_of, lemma_first_index_of, lower_seq, same_ignoring_case, str_eq, str_eq_ignore_case, str_lower, string_of_range, trim_bounds, trim_by, views, words, CharClass};

verus! {

/// Whether two words are the same up to ASCII case.
pub fn eq(value: &str, expected: &str) -> (r: bool)
    ensures
        r == same_ignoring_case(value@, expected@),
{
    str_eq_ignore_case(value, expected)
}

/// The identifier in a word: the word without the punctuation at its ends,
/// up to its first opening parenthesis.
pub open spec fn cleaned(token: Seq<char>) -> Seq<char> {
    let t = trim_by(token, CharClass::Punct);
    t.take(first_index_of(t, '(') as int)
}

pub fn clean_ident(token: &str) -> (out: String)
    ensures
        out@ == cleaned(token@),
{
    let v = chars_of(token);
    let (lo, hi) = trim_bounds(&v, CharClass::Punct);
    let ghost t = v@.subrange(lo as int, hi as int);
    let mut end: usize = lo;
    while end < hi && v[end] != '('
        invariant
            lo <= end <= hi <= v.len(),
            t == v@.subrange(lo as int, hi as int),
            forall|j: int| 0 <= j < end - lo ==> #[trigger] t[j] != '(',
        decreases hi - end,
    {
        end += 1;
    }
    proof {
        if end < hi {
            assert(t[end - lo] == v@[end as int]);
        }
        lemma_first_index_of(t, '(', end - lo);
        assert(t.take(end - lo) =~= v@.subrange(lo as int, end as int));
    }
    string_of_range(&v, lo, end)
}

/// Whether a word is one of the modifiers that may follow the kind.
pub open spec fn is_modifier(token: Seq<char>) -> bool {
    same_ignoring_case(token, "OVERWRITE"@) || same_ignoring_case(token, "IF"@)
        || same_ignoring_case(token, "NOT"@) || same_ignoring_case(token, "EXISTS"@)
}

/// The position of the first word from `idx` on that is no modifier.
pub open spec fn after_modifiers(tokens: Seq<Seq<char>>, idx: int) -> int
    decreases tokens.len() - idx,
{
    if 0 <= idx < tokens.len() && is_modifier(tokens[idx]) {
        after_modifiers(tokens, idx + 1)
    } else {
        idx
    }
}

pub fn skip_modifiers(tokens: &Vec<String>, idx: usize) -> (r: usize)
    ensures
        r == after_modifiers(views(tokens@), idx as int),
        idx <= r,
        r <= tokens.len() || r == idx,
{
    let mut i = idx;
    while i < tokens.len() && (eq(tokens[i].as_str(), "OVERWRITE") || eq(tokens[i].as_str(), "IF")
        || eq(tokens[i].as_str(), "NOT") || eq(tokens[i].as_str(), "EXISTS"))
        invariant
            idx <= i,
            i <= tokens.len() || i == idx,
            after_modifiers(views(tokens@), idx as int) == after_modifiers(
                views(tokens@),
                i as int,
            ),
        decreases tokens.len() - i,
    {
        i += 1;
    }
    i
}

/// The position of the first word from `start` on that is `target` up to
/// ASCII case.
pub open spec fn token_index(tokens: Seq<Seq<char>>, start: int, target: Seq<char>) -> Option<int>
    decreases tokens.len() - start,
{
    if start < 0 || start >= tokens.len() {
        None
    } else if same_ignoring_case(tokens[start], target) {
        Some(start)
    } else {
        token_index(tokens, start + 1, target)
    }
}

pub fn find_token(tokens: &Vec<String>, start: usize, target: &str) -> (r: Option<usize>)
    ensures
        match r {
            Some(i) => token_index(views(tokens@), start as int, target@) == Some(i as int)
                && start <= i < tokens.len(),
            None => token_index(views(tokens@), start as int, target@) is None,
        },
{
    let mut i = start;
    while i < tokens.len()
        invariant
            start <= i,
            token_index(views(tokens@), start as int, target@) == token_index(
                views(tokens@),
                i as int,
                target@,
            ),
        decreases tokens.len() - i,
    {
        if eq(tokens[i].as_str(), target) {
            return Some(i);
        }
        i += 1;
    }
    None
}

/// Whether entities of this kind belong to nothing.
pub open spec fn is_plain_kind(kind: Seq<char>) -> bool {
    kind == "table"@ || kind == "function"@ || kind == "param"@ || kind == "analyzer"@ || kind
        == "api"@
}

/// Whether entities of this kind belong to a table.
pub open spec fn is_table_kind(kind: Seq<char>) -> bool {
    kind == "field"@ || kind == "event"@ || kind == "index"@
}

/// Whether entities of this kind may belong to a level.
pub open spec fn is_level_kind(kind: Seq<char>) -> bool {
    kind == "access"@ || kind == "user"@
}

/// The entity that a statement defines, if it defines one that the catalog
/// knows about.
///
/// The statement begins with `DEFINE` and a kind; modifiers may follow; the
/// next word holds the name. A field, an event and an index belong to the
/// table that is named after `ON`, or after `ON TABLE`, and are passed over
/// without one. An access method and a user belong to what is named after
/// `ON`, if anything is.
pub open spec fn defined_entity(stmt: Seq<char>) -> Option<EntityView> {
    let tokens = words(stmt);
    if tokens.len() < 3 || !same_ignoring_case(tokens[0], "DEFINE"@) {
        None
    } else {
        let kind = lower_seq(tokens[1]);
        let idx = after_modifiers(tokens, 2);
        if idx >= tokens.len() {
            None
        } else {
            let name = cleaned(tokens[idx]);
            let on = token_index(tokens, idx + 1, "ON"@);
            if is_plain_kind(kind) {
                Some(EntityView { kind, scope: None, name })
            } else if is_table_kind(kind) {
                match on {
                    None => None,
                    Some(at) => {
                        let scope_idx = if at + 1 < tokens.len() && same_ignoring_case(
                            tokens[at + 1],
                            "TABLE"@,
                        ) {
                            at + 2
                        } else {
                            at + 1
                        };
                        if scope_idx >= tokens.len() {
                            None
                        } else {
                            Some(
                                EntityView { kind, scope: Some(cleaned(tokens[scope_idx])), name },
                            )
                        }
                    },
                }
            } else if is_level_kind(kind) {
                Some(
                    EntityView {
                        kind,
                        scope: match on {
                            Some(at) => if at + 1 < tokens.len() {
                                Some(cleaned(tokens[at + 1]))
                            } else {
                                None
                            },
                            None => None,
                        },
                        name,
                    },
                )
            } else {
                None
            }
        }
    }
}

pub open spec fn entity_opt_view(e: Option<EntityKey>) -> Option<EntityView> {
    match e {
        Some(x) => Some(x@),
        None => None,
    }
}

fn kind_is_plain(kind: &str) -> (r: bool)
    ensures
        r == is_plain_kind(kind@),
{
    str_eq(kind, "table") || str_eq(kind, "function") || str_eq(kind, "param") || str_eq(
        kind,
        "analyzer",
    ) || str_eq(kind, "api")
}

fn kind_is_table(kind: &str) -> (r: bool)
    ensures
        r == is_table_kind(kind@),
{
    str_eq(kind, "field") || str_eq(kind, "event") || str_eq(kind, "index")
}

fn kind_is_level(kind: &str) -> (r: bool)
    ensures
        r == is_level_kind(kind@),
{
    str_eq(kind, "access") || str_eq(kind, "user")
}

/// Reads from a statement the entity that it defines.
pub fn parse_define_entity(stmt: &str) -> (r: Option<EntityKey>)
    ensures
        entity_opt_view(r) == defined_entity(stmt@),
{
    let tokens = tokenize(stmt);
    if tokens.len() < 3 || !eq(tokens[0].as_str(), "DEFINE") {
        return None;
    }
    let kind = str_lower(tokens[1].as_str());
    let idx = skip_modifiers(&tokens, 2);
    if idx >= tokens.len() {
        return None;
    }
    let name = clean_ident(tokens[idx].as_str());
    if kind_is_plain(kind.as_str()) {
        Some(EntityKey { kind, scope: None, name })
    } else if kind_is_table(kind.as_str()) {
        let on_idx = match find_token(&tokens, idx + 1, "ON") {
            Some(i) => i,
            None => {
                return None;
            },
        };
        let mut scope_idx = on_idx + 1;
        if scope_idx < tokens.len() && eq(tokens[scope_idx].as_str(), "TABLE") {
            scope_idx += 1;
        }
        if scope_idx >= tokens.len() {
            return None;
        }
        Some(EntityKey { kind, scope: Some(clean_ident(tokens[scope_idx].as_str())), name })
    } else if kind_is_level(kind.as_str()) {
        let scope = match find_token(&tokens, idx + 1, "ON") {
            Some(on_idx) => {
                if on_idx + 1 < tokens.len() {
                    Some(clean_ident(tokens[on_idx + 1].as_str()))
                } else {
                    None
                }
            },
            None => None,
        };
        Some(EntityKey { kind, scope, name })
    } else {
        None
    }
}

/// The entities that a list of statements defines, in order.
pub open spec fn statement_entities(stmts: Seq<Seq<char>>) -> Seq<EntityView>
    decreases stmts.len(),
{
    if stmts.len() == 0 {
        Seq::empty()
    } else {
        match defined_entity(stmts.last()) {
            Some(e) => statement_entities(stmts.drop_last()).push(e),
            None => statement_entities(stmts.drop_last()),
        }
    }
}

/// The entities that the text of a file defines, in order.
pub open spec fn file_entities(sql: Seq<char>) -> Seq<EntityView> {
    statement_entities(statements(without_comments(sql)))
}

/// The entities that a list of files defines, in order.
pub open spec fn all_entities(files: Seq<SchemaFile>) -> Seq<EntityView>
    decreases files.len(),
{
    if files.len() == 0 {
        Seq::empty()
    } else {
        all_entities(files.drop_last()) + file_entities(files.last().sql@)
    }
}

pub open spec fn entity_views(v: Seq<EntityKey>) -> Seq<EntityView> {
    Seq::new(v.len(), |i: int| v[i]@)
}

/// Whether `catalog` is the catalog of `files`: every entity that a
/// statement of a file defines, once, in the order of the keys.
pub open spec fn is_catalog_of(files: Seq<SchemaFile>, catalog: CatalogSnapshot) -> bool {
    &&& catalog.version == 1
    &&& strictly_sorted(catalog.entities@)
    &&& forall|e: EntityView| #[trigger]
        entity_views(catalog.entities@).contains(e) <==> all_entities(files).contains(e)
}

/// A list has an entity exactly when it has a value with the entity's key.
pub proof fn lemma_has_entity(v: Seq<EntityKey>, e: EntityView)
    ensures
        entity_views(v).contains(e) <==> has_key(v, entity_key(e)),
{
    if entity_views(v).contains(e) {
        let i = choose|i: int| 0 <= i < v.len() && entity_views(v)[i] == e;
        assert(v[i].key() == entity_key(e));
    }
    if has_key(v, entity_key(e)) {
        let i = choose|i: int| 0 <= i < v.len() && #[trigger] v[i].key() == entity_key(e);
        crate::schema_state::lemma_entity_key_injective(v[i]@, e);
        assert(entity_views(v)[i] == e);
    }
}

/// The catalog of a list of files.
pub fn build_catalog_snapshot(files: &Vec<SchemaFile>) -> (catalog: CatalogSnapshot)
    ensures
        is_catalog_of(files@, catalog),
{
    let mut found: Vec<EntityKey> = Vec::new();
    let mut i: usize = 0;
    proof {
        assert(files@.take(0) =~= Seq::<SchemaFile>::empty());
        assert(entity_views(found@) =~= Seq::<EntityView>::empty());
    }
    while i < files.len()
        invariant
            i <= files.len(),
            entity_views(found@) == all_entities(files@.take(i as int)),
        decreases files.len() - i,
    {
        let text = strip_line_comments(files[i].sql.as_str());
        let stmts = split_statements(text.as_str());
        let ghost so_far = entity_views(found@);
        let ghost all = views(stmts@);
        let mut k: usize = 0;
        proof {
            assert(all.take(0) =~= Seq::<Seq<char>>::empty());
            assert(so_far + Seq::<EntityView>::empty() =~= so_far);
        }
        while k < stmts.len()
            invariant
                k <= stmts.len(),
                all == views(stmts@),
                entity_views(found@) == so_far + statement_entities(all.take(k as int)),
            decreases stmts.len() - k,
        {
            let ghost next = all.take(k + 1);
            proof {
                assert(next.drop_last() =~= all.take(k as int));
                assert(next.last() == stmts@[k as int]@);
            }
            let ghost before = entity_views(found@);
            match parse_define_entity(stmts[k].as_str()) {
                Some(e) => {
                    found.push(e);
                    assert(entity_views(found@) =~= before.push(e@));
                    assert(before.push(e@) =~= so_far + statement_entities(next));
                },
                None => {},
            }
            k += 1;
        }
        proof {
            assert(all.take(stmts.len() as int) =~= all);
            let next = files@.take(i + 1);
            assert(next.drop_last() =~= files@.take(i as int));
            assert(next.last() == files@[i as int]);
        }
        i += 1;
    }
    assert(files@.take(files.len() as int) =~= files@);
    let ghost unsorted = found@;
    let ordered = sort_by_key(found);
    let entities = dedup_sorted(ordered);
    proof {
        assert forall|e: EntityView| #[trigger]
            entity_views(entities@).contains(e) <==> all_entities(files@).contains(e) by {
            let k = entity_key(e);
            lemma_has_entity(entities@, e);
            lemma_has_entity(ordered@, e);
            lemma_has_entity(unsorted, e);
            lemma_same_keys(unsorted, ordered@, k);
        }
    }
    CatalogSnapshot { version: 1, entities }
}

/// Lists with the same values have the same keys.
pub proof fn lemma_same_keys<T: Keyed>(a: Seq<T>, b: Seq<T>, k: Seq<Seq<char>>)
    requires
        a.to_multiset() == b.to_multiset(),
    ensures
        has_key(a, k) <==> has_key(b, k),
{
    if has_key(a, k) {
        let i = choose|i: int| 0 <= i < a.len() && #[trigger] a[i].key() == k;
        assert(a.contains(a[i]));
        vstd::seq_lib::to_multiset_contains(a, a[i]);
        vstd::seq_lib::to_multiset_contains(b, a[i]);
        let j = choose|j: int| 0 <= j < b.len() && b[j] == a[i];
        assert(b[j].key() == k);
    }
    if has_key(b, k) {
        let i = choose|i: int| 0 <= i < b.len() && #[trigger] b[i].key() == k;
        assert(b.contains(b[i]));
        vstd::seq_lib::to_multiset_contains(b, b[i]);
        vstd::seq_lib::to_multiset_contains(a, b[i]);
        let j = choose|j: int| 0 <= j < a.len() && a[j] == b[i];
        assert(a[j].key() == k);
    }
}

/// A copy of an entity.
pub fn copy_entity(e: &EntityKey) -> (out: EntityKey)
    ensures
        out@ == e@,
{
    EntityKey {
        kind: e.kind.clone(),
        scope: match &e.scope {
            Some(s) => Some(s.clone()),
            None => None,
        },
        name: e.name.clone(),
    }
}

fn same_entity(a: &EntityKey, b: &EntityKey) -> (r: bool)
    ensures
        r == (a@ == b@),
{
    if !str_eq(a.kind.as_str(), b.kind.as_str()) || !str_eq(a.name.as_str(), b.name.as_str()) {
        return false;
    }
    match (&a.scope, &b.scope) {
        (None, None) => true,
        (Some(x), Some(y)) => str_eq(x.as_str(), y.as_str()),
        _ => false,
    }
}

fn has_entity(list: &Vec<EntityKey>, e: &EntityKey) -> (r: bool)
    ensures
        r == entity_views(list@).contains(e@),
{
    let mut i: usize = 0;
    while i < list.len()
        invariant
            i <= list.len(),
            forall|j: int| 0 <= j < i ==> entity_views(list@)[j] != e@,
        decreases list.len() - i,
    {
        if same_entity(&list[i], e) {
            assert(entity_views(list@)[i as int] == e@);
            return true;
        }
        i += 1;
    }
    false
}

/// Whether `stale` holds the entities of `old` that `new` lacks, each one
/// once, in the order of the keys.
pub open spec fn is_removed(old: Seq<EntityKey>, new: Seq<EntityKey>, stale: Seq<EntityKey>)
    -> bool {
    &&& strictly_sorted(stale)
    &&& forall|e: EntityView| #[trigger]
        entity_views(stale).contains(e) <==> entity_views(old).contains(e) && !entity_views(
            new,
        ).contains(e)
}

/// The entities of the old catalog that the new one no longer has.
pub fn removed_entities(old: &CatalogSnapshot, new: &CatalogSnapshot) -> (stale: Vec<EntityKey>)
    ensures
        is_removed(old.entities@, new.entities@, stale@),
{
    let mut copies: Vec<EntityKey> = Vec::new();
    let mut i: usize = 0;
    while i < old.entities.len()
        invariant
            i <= old.entities.len(),
            copies@.len() == i,
            forall|j: int| 0 <= j < i ==> (#[trigger] copies@[j])@ == old.entities@[j]@,
        decreases old.entities.len() - i,
    {
        copies.push(copy_entity(&old.entities[i]));
        i += 1;
    }
    assert(entity_views(copies@) =~= entity_views(old.entities@));
    let ghost unsorted = copies@;
    let ordered = sort_by_key(copies);
    let mut distinct = dedup_sorted(ordered);
    let ghost all = distinct@;
    proof {
        assert forall|e: EntityView| #[trigger]
            entity_views(all).contains(e) <==> entity_views(old.entities@).contains(e) by {
            lemma_has_entity(all, e);
            lemma_has_entity(ordered@, e);
            lemma_has_entity(unsorted, e);
            lemma_same_keys(unsorted, ordered@, entity_key(e));
        }
    }
    // The list is walked from its end, so what is kept comes out reversed.
    let mut back: Vec<EntityKey> = Vec::new();
    while distinct.len() > 0
        invariant
            distinct@.len() <= all.len(),
            distinct@ == all.take(distinct@.len() as int),
            strictly_sorted(all),
            forall|a: int, b: int|
                0 <= a < b < back@.len() ==> crate::order::key_lt(
                    #[trigger] back@[b].key(),
                    #[trigger] back@[a].key(),
                ),
            forall|a: int|
                0 <= a < back@.len() ==> exists|z: int|
                    distinct@.len() <= z < all.len() && all[z] == #[trigger] back@[a],
            forall|z: int|
                distinct@.len() <= z < all.len() ==> (entity_views(back@).contains(
                    (#[trigger] all[z])@,
                ) <==> !entity_views(new.entities@).contains(all[z]@)),
        decreases distinct.len(),
    {
        let ghost n = distinct@.len() as int;
        let e = distinct.pop().unwrap();
        assert(e == all[n - 1]);
        assert(distinct@ =~= all.take(n - 1));
        let ghost old_back = back@;
        let keep = !has_entity(&new.entities, &e);
        if keep {
            back.push(e);
        }
        proof {
            if keep {
                assert forall|a: int, b: int| 0 <= a < b < back@.len() implies crate::order::key_lt(
                    #[trigger] back@[b].key(),
                    #[trigger] back@[a].key(),
                ) by {
                    if b == back@.len() - 1 {
                        let z = choose|z: int| n <= z < all.len() && all[z] == old_back[a];
                        assert(crate::order::key_lt(all[n - 1].key(), all[z].key()));
                    }
                }
                assert forall|a: int| 0 <= a < back@.len() implies exists|z: int|
                    n - 1 <= z < all.len() && all[z] == #[trigger] back@[a] by {
                    if a < old_back.len() {
                        let z = choose|z: int| n <= z < all.len() && all[z] == old_back[a];
                        assert(n - 1 <= z < all.len() && all[z] == back@[a]);
                    } else {
                        assert(all[n - 1] == back@[a]);
                    }
                }
            } else {
                assert forall|a: int| 0 <= a < back@.len() implies exists|z: int|
                    n - 1 <= z < all.len() && all[z] == #[trigger] back@[a] by {
                    let z = choose|z: int| n <= z < all.len() && all[z] == old_back[a];
                    assert(n - 1 <= z < all.len() && all[z] == back@[a]);
                }
            }
            assert forall|z: int| n - 1 <= z < all.len() implies (entity_views(back@).contains(
                (#[trigger] all[z])@,
            ) <==> !entity_views(new.entities@).contains(all[z]@)) by {
                let target = all[z]@;
                if z >= n {
                    if entity_views(old_back).contains(target) {
                        let w = choose|w: int|
                            0 <= w < old_back.len() && entity_views(old_back)[w] == target;
                        assert(entity_views(back@)[w] == target);
                    }
                    if entity_views(back@).contains(target) && !entity_views(old_back).contains(
                        target,
                    ) {
                        let w = choose|w: int|
                            0 <= w < back@.len() && entity_views(back@)[w] == target;
                        if w < old_back.len() {
                            assert(entity_views(old_back)[w] == target);
                        } else {
                            // the new element has the key of all[z], yet comes strictly before it
                            assert(back@[w] == all[n - 1]);
                            assert(crate::order::key_lt(all[n - 1].key(), all[z].key()));
                            crate::order::lemma_key_irreflexive(all[z].key());
                        }
                    }
                } else {
                    if keep {
                        assert(entity_views(back@)[back@.len() - 1] == target);
                    } else {
                        if entity_views(back@).contains(target) {
                            let w = choose|w: int|
                                0 <= w < back@.len() && entity_views(back@)[w] == target;
                            let y = choose|y: int| n <= y < all.len() && all[y] == old_back[w];
                            assert(crate::order::key_lt(all[n - 1].key(), all[y].key()));
                            crate::order::lemma_key_irreflexive(all[y].key());
                        }
                    }
                }
            }
        }
    }
    let ghost kept = back@;
    let mut stale: Vec<EntityKey> = Vec::new();
    while back.len() > 0
        invariant
            back@.len() <= kept.len(),
            back@ == kept.take(back@.len() as int),
            stale@.len() == kept.len() - back@.len(),
            forall|a: int|
                0 <= a < stale@.len() ==> #[trigger] stale@[a] == kept[kept.len() - 1 - a],
        decreases back.len(),
    {
        let ghost m = back@.len() as int;
        let e = back.pop().unwrap();
        assert(e == kept[m - 1]);
        assert(back@ =~= kept.take(m - 1));
        stale.push(e);
    }
    proof {
        assert forall|a: int, b: int| 0 <= a < b < stale@.len() implies crate::order::key_lt(
            #[trigger] stale@[a].key(),
            #[trigger] stale@[b].key(),
        ) by {
            let x = kept.len() - 1 - b;
            let y = kept.len() - 1 - a;
            assert(crate::order::key_lt(kept[y].key(), kept[x].key()));
        }
        assert forall|e: EntityView| #[trigger]
            entity_views(stale@).contains(e) <==> entity_views(old.entities@).contains(e)
                && !entity_views(new.entities@).contains(e) by {
            if entity_views(stale@).contains(e) {
                let a = choose|a: int| 0 <= a < stale@.len() && entity_views(stale@)[a] == e;
                let w = kept.len() - 1 - a;
                assert(stale@[a] == kept[w]);
                assert(entity_views(kept)[w] == e);
                assert(entity_views(kept).contains(e));
                let z = choose|z: int| 0 <= z < all.len() && all[z] == kept[w];
                assert(entity_views(all)[z] == e);
                assert(entity_views(all).contains(e));
                assert(all[z]@ == e);
                assert(entity_views(kept).contains(all[z]@));
                assert(!entity_views(new.entities@).contains(all[z]@));
            }
            if entity_views(old.entities@).contains(e) && !entity_views(new.entities@).contains(
                e,
            ) {
                assert(entity_views(all).contains(e));
                let z = choose|z: int| 0 <= z < all.len() && entity_views(all)[z] == e;
                assert(all[z]@ == e);
                assert(entity_views(kept).contains(all[z]@));
                let w = choose|w: int| 0 <= w < kept.len() && entity_views(kept)[w] == e;
                assert(stale@[kept.len() - 1 - w] == kept[w]);
                assert(entity_views(stale@)[kept.len() - 1 - w] == e);
            }
        }
    }
    stale
}

/// The scope of an entity whose statement needs one; `object` names the
/// kind in the error.
pub open spec fn scope_or_error(e: EntityView, object: Seq<char>) -> Result<
    Seq<char>,
    KitErrorView,
> {
    match e.scope {
        Some(s) => Ok(s),
        None => Err(
            error_of(
                ErrorKind::MissingScope,
                "cannot render REMOVE "@ + object + " for '"@ + e.name
                    + "' because scope is missing"@,
            ),
        ),
    }
}

pub open spec fn scope_result_view(r: Result<String, KitError>) -> Result<Seq<char>, KitErrorView> {
    match r {
        Ok(s) => Ok(s@),
        Err(e) => Err(e@),
    }
}

pub fn scope_or_err(entity: &EntityKey, object: &str) -> (r: Result<String, KitError>)
    ensures
        scope_result_view(r) == scope_or_error(entity@, object@),
{
    match &entity.scope {
        Some(s) => Ok(s.clone()),
        None => Err(
            KitError::new(
                ErrorKind::MissingScope,
                concat5(
                    "cannot render REMOVE ",
                    object,
                    " for '",
                    entity.name.as_str(),
                    "' because scope is missing",
                ),
            ),
        ),
    }
}

pub open spec fn remove_plain(word: Seq<char>, name: Seq<char>) -> Seq<char> {
    "REMOVE "@ + word + " "@ + name + ";"@
}

pub open spec fn remove_scoped(word: Seq<char>, name: Seq<char>, scope: Seq<char>) -> Seq<char> {
    "REMOVE "@ + word + " "@ + name + " ON "@ + scope + ";"@
}

pub open spec fn api_unsupported(name: Seq<char>) -> KitErrorView {
    error_of(
        ErrorKind::Capability,
        "API removal requested for '"@ + name
            + "' but this SurrealDB server does not support `REMOVE API`. Use a manual migration or upgrade server support."@,
    )
}

/// The statement that removes an entity; `Ok(None)` for a kind that is not
/// known, which is passed over.
///
/// A field, an event and an index are removed from their table and cannot
/// be without it. An access method and a user are removed from their level
/// where they have one. An API can be removed only where the server supports it.
pub open spec fn remove_statement(e: EntityView, api_supported: bool) -> Result<
    Option<Seq<char>>,
    KitErrorView,
> {
    if e.kind == "table"@ {
        Ok(Some(remove_plain("TABLE"@, e.name)))
    } else if e.kind == "field"@ {
        match scope_or_error(e, "FIELD"@) {
            Ok(s) => Ok(Some(remove_scoped("FIELD"@, e.name, s))),
            Err(err) => Err(err),
        }
    } else if e.kind == "event"@ {
        match scope_or_error(e, "EVENT"@) {
            Ok(s) => Ok(Some(remove_scoped("EVENT"@, e.name, s))),
            Err(err) => Err(err),
        }
    } else if e.kind == "index"@ {
        match scope_or_error(e, "INDEX"@) {
            Ok(s) => Ok(Some(remove_scoped("INDEX"@, e.name, s))),
            Err(err) => Err(err),
        }
    } else if e.kind == "function"@ {
        Ok(Some(remove_plain("FUNCTION"@, e.name)))
    } else if e.kind == "param"@ {
        Ok(Some(remove_plain("PARAM"@, e.name)))
    } else if e.kind == "access"@ {
        match e.scope {
            Some(s) => Ok(Some(remove_scoped("ACCESS"@, e.name, s))),
            None => Ok(Some(remove_plain("ACCESS"@, e.name))),
        }
    } else if e.kind == "analyzer"@ {
        Ok(Some(remove_plain("ANALYZER"@, e.name)))
    } else if e.kind == "user"@ {
        match e.scope {
            Some(s) => Ok(Some(remove_scoped("USER"@, e.name, s))),
            None => Ok(Some(remove_plain("USER"@, e.name))),
        }
    } else if e.kind == "api"@ {
        if api_supported {
            Ok(Some(remove_plain("API"@, e.name)))
        } else {
            Err(api_unsupported(e.name))
        }
    } else {
        Ok(None)
    }
}

/// The statements that remove a list of entities, in order; the first
/// entity whose statement cannot be written gives its error instead.
pub open spec fn remove_statements(entities: Seq<EntityView>, api_supported: bool) -> Result<
    Seq<Seq<char>>,
    KitErrorView,
>
    decreases entities.len(),
{
    if entities.len() == 0 {
        Ok(Seq::empty())
    } else {
        match remove_statements(entities.drop_last(), api_supported) {
            Err(e) => Err(e),
            Ok(done) => match remove_statement(entities.last(), api_supported) {
                Err(e) => Err(e),
                Ok(Some(s)) => Ok(done.push(s)),
                Ok(None) => Ok(done),
            },
        }
    }
}

fn plain(word: &str, name: &str) -> (out: String)
    ensures
        out@ == remove_plain(word@, name@),
{
    concat5("REMOVE ", word, " ", name, ";")
}

fn scoped(word: &str, name: &str, scope: &str) -> (out: String)
    ensures
        out@ == remove_scoped(word@, name@, scope@),
{
    crate::text::concat7("REMOVE ", word, " ", name, " ON ", scope, ";")
}

pub open spec fn statement_opt_view(r: Result<Option<String>, KitError>) -> Result<
    Option<Seq<char>>,
    KitErrorView,
> {
    match r {
        Ok(Some(s)) => Ok(Some(s@)),
        Ok(None) => Ok(None),
        Err(e) => Err(e@),
    }
}

fn scoped_or_err(entity: &EntityKey, word: &str) -> (r: Result<Option<String>, KitError>)
    ensures
        statement_opt_view(r) == match scope_or_error(entity@, word@) {
            Ok(s) => Ok::<Option<Seq<char>>, KitErrorView>(
                Some(remove_scoped(word@, entity@.name, s)),
            ),
            Err(e) => Err(e),
        },
{
    match scope_or_err(entity, word) {
        Ok(s) => Ok(Some(scoped(word, entity.name.as_str(), s.as_str()))),
        Err(e) => Err(e),
    }
}

fn scoped_if_any(entity: &EntityKey, word: &str) -> (out: String)
    ensures
        out@ == match entity@.scope {
            Some(s) => remove_scoped(word@, entity@.name, s),
            None => remove_plain(word@, entity@.name),
        },
{
    match &entity.scope {
        Some(s) => scoped(word, entity.name.as_str(), s.as_str()),
        None => plain(word, entity.name.as_str()),
    }
}

/// Writes the statement that removes one entity.
pub fn render_remove_statement(entity: &EntityKey, api_supported: bool) -> (r: Result<
    Option<String>,
    KitError,
>)
    ensures
        statement_opt_view(r) == remove_statement(entity@, api_supported),
{
    let kind = entity.kind.as_str();
    let name = entity.name.as_str();
    if str_eq(kind, "table") {
        Ok(Some(plain("TABLE", name)))
    } else if str_eq(kind, "field") {
        scoped_or_err(entity, "FIELD")
    } else if str_eq(kind, "event") {
        scoped_or_err(entity, "EVENT")
    } else if str_eq(kind, "index") {
        scoped_or_err(entity, "INDEX")
    } else if str_eq(kind, "function") {
        Ok(Some(plain("FUNCTION", name)))
    } else if str_eq(kind, "param") {
        Ok(Some(plain("PARAM", name)))
    } else if str_eq(kind, "access") {
        Ok(Some(scoped_if_any(entity, "ACCESS")))
    } else if str_eq(kind, "analyzer") {
        Ok(Some(plain("ANALYZER", name)))
    } else if str_eq(kind, "user") {
        Ok(Some(scoped_if_any(entity, "USER")))
    } else if str_eq(kind, "api") {
        if api_supported {
            Ok(Some(plain("API", name)))
        } else {
            Err(
                KitError::new(
                    ErrorKind::Capability,
                    concat3(
                        "API removal requested for '",
                        name,
                        "' but this SurrealDB server does not support `REMOVE API`. Use a manual migration or upgrade server support.",
                    ),
                ),
            )
        }
    } else {
        Ok(None)
    }
}

/// An error among the first `i` entities is the error of the whole list.
pub proof fn lemma_remove_prefix_error(entities: Seq<EntityView>, api_supported: bool, i: int)
    requires
        0 <= i <= entities.len(),
    ensures
        remove_statements(entities.take(i), api_supported) is Err ==> remove_statements(
            entities,
            api_supported,
        ) == remove_statements(entities.take(i), api_supported),
    decreases entities.len() - i,
{
    if i < entities.len() {
        lemma_remove_prefix_error(entities, api_supported, i + 1);
        assert(entities.take(i + 1).drop_last() =~= entities.take(i));
    } else {
        assert(entities.take(i) =~= entities);
    }
}

/// Writes the statements that remove a list of entities.
pub fn render_remove_sql(entities: &Vec<EntityKey>, api_supported: bool) -> (r: Result<
    Vec<String>,
    KitError,
>)
    ensures
        match remove_statements(entity_views(entities@), api_supported) {
            Ok(stmts) => r is Ok && views(r->Ok_0@) == stmts,
            Err(e) => r is Err && r->Err_0@ == e,
        },
{
    let ghost all = entity_views(entities@);
    let mut out: Vec<String> = Vec::new();
    let mut i: usize = 0;
    proof {
        assert(all.take(0) =~= Seq::<EntityView>::empty());
        assert(views(out@) =~= Seq::<Seq<char>>::empty());
    }
    while i < entities.len()
        invariant
            i <= entities.len(),
            all == entity_views(entities@),
            remove_statements(all.take(i as int), api_supported) == Ok::<
                Seq<Seq<char>>,
                KitErrorView,
            >(views(out@)),
        decreases entities.len() - i,
    {
        let ghost next = all.take(i + 1);
        proof {
            assert(next.drop_last() =~= all.take(i as int));
            assert(next.last() == entities@[i as int]@);
            lemma_remove_prefix_error(all, api_supported, i + 1);
        }
        let ghost before = views(out@);
        match render_remove_statement(&entities[i], api_supported) {
            Err(e) => {
                return Err(e);
            },
            Ok(Some(s)) => {
                out.push(s);
                assert(views(out@) =~= before.push(s@));
            },
            Ok(None) => {},
        }
        i += 1;
    }
    assert(all.take(entities.len() as int) =~= all);
    Ok(out)
}

} // verus!
