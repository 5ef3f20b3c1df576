//! Classification of encryption keys into provider-managed and
//! customer-managed ones, joined with their aliases.

use vstd::prelude::*;
use crate::ResolveError;

verus! {

/// An alias as the key service lists it: a name and the key it points to.
#[derive(Debug, Clone, PartialEq, Eq)]
pub struct AliasRecord {
    pub name: Option<String>,
    pub target_key_id: Option<String>,
}

/// A customer-managed key, with the alias that represents it, if any.
#[derive(Debug, Clone, PartialEq, Eq)]
pub struct Key {
    pub id: String,
    pub alias: Option<String>,
}

/// Who manages a key.
#[derive(Debug, Clone, Copy, PartialEq, Eq, Structural)]
pub enum KeyKind {
    ProviderManaged,
    CustomerManaged,
}

/// What a key is, as values: its id and its alias.
pub type KeyModel = (Seq<char>, Option<Seq<char>>);

pub open spec fn key_model(k: Key) -> KeyModel {
    (k.id@, match k.alias {
        Some(a) => Some(a@),
        None => None,
    })
}

/// The prefix that the provider reserves for the aliases of its own keys.
pub open spec fn reserved_prefix() -> Seq<char> {
    seq!['a', 'l', 'i', 'a', 's', '/', 'a', 'w', 's']
}

pub open spec fn is_provider_alias_name(name: Seq<char>) -> bool {
    name.len() >= reserved_prefix().len() && name.subrange(0, reserved_prefix().len() as int)
        == reserved_prefix()
}

/// The alias points to the key `id`; an alias with no or an empty target
/// points to no key at all.
pub open spec fn targets(a: AliasRecord, id: Seq<char>) -> bool {
    &&& id.len() > 0
    &&& a.target_key_id is Some
    &&& a.target_key_id->0@ == id
}

/// Index of the last alias that points to `id`, or -1 where none does.
pub open spec fn matched_alias_index(aliases: Seq<AliasRecord>, id: Seq<char>) -> int
    decreases aliases.len(),
{
    if aliases.len() == 0 {
        -1
    } else if targets(aliases.last(), id) {
        aliases.len() - 1
    } else {
        matched_alias_index(aliases.drop_last(), id)
    }
}

/// The name of the alias that a key is known by: of the aliases that point
/// to it, the last one listed.
pub open spec fn alias_of(aliases: Seq<AliasRecord>, id: Seq<char>) -> Option<Seq<char>> {
    let i = matched_alias_index(aliases, id);
    if i < 0 {
        None
    } else {
        match aliases[i].name {
            Some(n) => Some(n@),
            None => None,
        }
    }
}

pub open spec fn kind_of(aliases: Seq<AliasRecord>, id: Seq<char>) -> KeyKind {
    match alias_of(aliases, id) {
        Some(n) => if is_provider_alias_name(n) {
            KeyKind::ProviderManaged
        } else {
            KeyKind::CustomerManaged
        },
        None => KeyKind::CustomerManaged,
    }
}

/// The customer-managed keys among `ids`, in their order, each with its alias.
pub open spec fn customer_keys(ids: Seq<String>, aliases: Seq<AliasRecord>) -> Seq<KeyModel>
    decreases ids.len(),
{
    if ids.len() == 0 {
        seq![]
    } else {
        let rest = customer_keys(ids.drop_last(), aliases);
        let id = ids.last()@;
        if kind_of(aliases, id) == KeyKind::ProviderManaged {
            rest
        } else {
            rest.push((id, alias_of(aliases, id)))
        }
    }
}

pub open spec fn all_named(aliases: Seq<AliasRecord>) -> bool {
    forall|i: int| 0 <= i < aliases.len() ==> (#[trigger] aliases[i]).name is Some
}

pub open spec fn all_present(ids: Seq<Option<String>>) -> bool {
    forall|i: int| 0 <= i < ids.len() ==> (#[trigger] ids[i]) is Some
}

pub open spec fn ids_unique(ids: Seq<String>) -> bool {
    forall|i: int, j: int| 0 <= i < j < ids.len() ==> ids[i]@ != ids[j]@
}

/// Whether `name` begins with the provider's reserved prefix.
pub fn is_provider_alias(name: &String) -> (r: bool)
    ensures
        r == is_provider_alias_name(name@),
{
    let p = "alias/aws";
    proof {
        reveal_strlit("alias/aws");
    }
    assert(p@ == reserved_prefix());
    let n = name.as_str();
    if n.unicode_len() < 9 {
        return false;
    }
    let mut i: usize = 0;
    while i < 9
        invariant
            i <= 9,
            n@ == name@,
            name@.len() >= 9,
            p@ == reserved_prefix(),
            forall|j: int| 0 <= j < i ==> name@[j] == reserved_prefix()[j],
        decreases 9 - i,
    {
        if n.get_char(i) != p.get_char(i) {
            assert(name@.subrange(0, 9)[i as int] != reserved_prefix()[i as int]);
            return false;
        }
        i = i + 1;
    }
    assert(name@.subrange(0, 9) =~= reserved_prefix());
    true
}

/// Index of the last alias that points to `id`, if any.
fn find_alias(aliases: &Vec<AliasRecord>, id: &String) -> (r: Option<usize>)
    ensures
        match r {
            Some(i) => i as int == matched_alias_index(aliases@, id@),
            None => matched_alias_index(aliases@, id@) == -1,
        },
        r is Some ==> r->0 < aliases@.len(),
{
    if id.as_str().unicode_len() == 0 {
        proof {
            lemma_no_match_for_empty(aliases@, id@);
        }
        return None;
    }
    let mut i: usize = aliases.len();
    assert(aliases@.subrange(0, i as int) =~= aliases@);
    while i > 0
        invariant
            i <= aliases@.len(),
            id@.len() > 0,
            matched_alias_index(aliases@, id@) == matched_alias_index(aliases@.subrange(0, i as int), id@),
        decreases i,
    {
        let a = &aliases[i - 1];
        assert(aliases@.subrange(0, i - 1) =~= aliases@.subrange(0, i as int).drop_last());
        assert(aliases@.subrange(0, i as int).last() == aliases@[i - 1]);
        match &a.target_key_id {
            Some(t) => {
                if t.eq(id) {
                    assert(targets(aliases@[i - 1], id@));
                    return Some(i - 1);
                }
            },
            None => {},
        }
        i = i - 1;
    }
    None
}

proof fn lemma_no_match_for_empty(aliases: Seq<AliasRecord>, id: Seq<char>)
    requires
        id.len() == 0,
    ensures
        matched_alias_index(aliases, id) == -1,
    decreases aliases.len(),
{
    if aliases.len() > 0 {
        lemma_no_match_for_empty(aliases.drop_last(), id);
    }
}

/// How the key `id` is managed, and the name of the alias it is known by.
pub fn classify_key(aliases: &Vec<AliasRecord>, id: &String) -> (r: (KeyKind, Option<String>))
    requires
        all_named(aliases@),
    ensures
        r.0 == kind_of(aliases@, id@),
        match r.1 {
            Some(n) => alias_of(aliases@, id@) == Some(n@),
            None => alias_of(aliases@, id@) is None,
        },
{
    match find_alias(aliases, id) {
        None => (KeyKind::CustomerManaged, None),
        Some(i) => {
            let name = match &aliases[i].name {
                Some(n) => n.clone(),
                None => {
                    assert(aliases@[i as int].name is Some);
                    String::new()
                },
            };
            if is_provider_alias(&name) {
                (KeyKind::ProviderManaged, Some(name))
            } else {
                (KeyKind::CustomerManaged, Some(name))
            }
        },
    }
}

pub open spec fn unwrap_ids(ids: Seq<Option<String>>) -> Seq<String> {
    ids.map_values(|o: Option<String>| o->0)
}

/// The customer-managed keys among `key_ids`, in the order listed, each with
/// the alias it is known by; the provider's own keys are left out. Fails
/// when a key has no id or an alias no name.
pub fn customer_managed_keys(key_ids: Vec<Option<String>>, aliases: Vec<AliasRecord>) -> (r: Result<
    Vec<Key>,
    ResolveError,
>)
    ensures
        r is Err <==> !(all_present(key_ids@) && all_named(aliases@)),
        r is Err ==> r->Err_0 == ResolveError::MalformedRecord,
        r is Ok ==> r->Ok_0@.map_values(|k: Key| key_model(k)) == customer_keys(
            unwrap_ids(key_ids@),
            aliases@,
        ),
{
    let mut j: usize = 0;
    while j < aliases.len()
        invariant
            j <= aliases@.len(),
            forall|k: int| 0 <= k < j ==> (#[trigger] aliases@[k]).name is Some,
        decreases aliases@.len() - j,
    {
        if aliases[j].name.is_none() {
            return Err(ResolveError::MalformedRecord);
        }
        j = j + 1;
    }
    let ghost ids = unwrap_ids(key_ids@);
    let mut out: Vec<Key> = Vec::new();
    let mut i: usize = 0;
    while i < key_ids.len()
        invariant
            i <= key_ids@.len(),
            all_named(aliases@),
            ids == unwrap_ids(key_ids@),
            forall|k: int| 0 <= k < i ==> (#[trigger] key_ids@[k]) is Some,
            out@.map_values(|k: Key| key_model(k)) == customer_keys(ids.subrange(0, i as int), aliases@),
        decreases key_ids@.len() - i,
    {
        let id = match &key_ids[i] {
            Some(id) => id,
            None => {
                return Err(ResolveError::MalformedRecord);
            },
        };
        let (kind, alias) = classify_key(&aliases, id);
        assert(ids.subrange(0, i as int) =~= ids.subrange(0, i + 1).drop_last());
        assert(ids.subrange(0, i + 1).last() == *id);
        if kind == KeyKind::CustomerManaged {
            let ghost before = out@;
            out.push(Key { id: id.clone(), alias });
            assert(out@.map_values(|k: Key| key_model(k)) =~= before.map_values(|k: Key| key_model(k)).push(
                (id@, alias_of(aliases@, id@)),
            ));
        }
        i = i + 1;
    }
    assert(ids.subrange(0, key_ids@.len() as int) =~= ids);
    Ok(out)
}

pub open spec fn id_views(ids: Seq<String>) -> Seq<Seq<char>> {
    ids.map_values(|s: String| s@)
}

/// A key counts as the provider's exactly when the alias it is known by
/// begins with the reserved prefix; otherwise it has no alias or one that
/// does not. Each key kept as customer-managed carries the alias it is
/// known by, and each provider-managed key is left out.
pub proof fn lemma_classification_follows_aliases(ids: Seq<String>, aliases: Seq<AliasRecord>)
    ensures
        forall|id: Seq<char>|
            #![trigger kind_of(aliases, id)]
            (kind_of(aliases, id) == KeyKind::ProviderManaged) <==> (alias_of(aliases, id) is Some
                && is_provider_alias_name(alias_of(aliases, id)->0)),
        forall|m: int|
            #![trigger customer_keys(ids, aliases)[m]]
            0 <= m < customer_keys(ids, aliases).len() ==> {
                let k = customer_keys(ids, aliases)[m];
                &&& kind_of(aliases, k.0) == KeyKind::CustomerManaged
                &&& k.1 == alias_of(aliases, k.0)
                &&& (k.1 is None || !is_provider_alias_name(k.1->0))
            },
        forall|i: int|
            #![trigger ids[i]]
            0 <= i < ids.len() ==> if kind_of(aliases, ids[i]@) == KeyKind::ProviderManaged {
                forall|m: int|
                    0 <= m < customer_keys(ids, aliases).len() ==> customer_keys(ids, aliases)[m].0
                        != ids[i]@
            } else {
                customer_keys(ids, aliases).contains((ids[i]@, alias_of(aliases, ids[i]@)))
            },
    decreases ids.len(),
{
    if ids.len() > 0 {
        let rest = ids.drop_last();
        lemma_classification_follows_aliases(rest, aliases);
        let out = customer_keys(ids, aliases);
        let prev = customer_keys(rest, aliases);
        assert forall|m: int| 0 <= m < out.len() implies {
            let k = #[trigger] out[m];
            &&& kind_of(aliases, k.0) == KeyKind::CustomerManaged
            &&& k.1 == alias_of(aliases, k.0)
            &&& (k.1 is None || !is_provider_alias_name(k.1->0))
        } by {
            if m < prev.len() {
                assert(out[m] == prev[m]);
            }
        }
        assert forall|i: int| 0 <= i < ids.len() implies if kind_of(aliases, ids[i]@)
            == KeyKind::ProviderManaged {
            forall|m: int| 0 <= m < out.len() ==> out[m].0 != ids[i]@
        } else {
            out.contains((ids[i]@, alias_of(aliases, ids[i]@)))
        } by {
            if kind_of(aliases, ids[i]@) == KeyKind::ProviderManaged {
                assert forall|m: int| 0 <= m < out.len() implies out[m].0 != ids[i]@ by {
                    if m < prev.len() {
                        assert(out[m] == prev[m]);
                    }
                    if i < rest.len() {
                        assert(rest[i] == ids[i]);
                    }
                }
            } else if i < rest.len() {
                assert(rest[i] == ids[i]);
                let m = choose|m: int| 0 <= m < prev.len() && prev[m] == (ids[i]@, alias_of(aliases, ids[i]@));
                assert(out[m] == prev[m]);
            } else {
                assert(out[out.len() - 1] == (ids[i]@, alias_of(aliases, ids[i]@)));
            }
        }
    }
}

/// Every key in the customer-managed output was among the input keys, and
/// where the input ids are distinct, so are the output's.
pub proof fn lemma_customer_keys_from_input(ids: Seq<String>, aliases: Seq<AliasRecord>)
    ensures
        forall|m: int|
            #![trigger customer_keys(ids, aliases)[m]]
            0 <= m < customer_keys(ids, aliases).len() ==> id_views(ids).contains(
                customer_keys(ids, aliases)[m].0,
            ),
        ids_unique(ids) ==> forall|m: int, n: int|
            0 <= m < n < customer_keys(ids, aliases).len() ==> customer_keys(ids, aliases)[m].0
                != customer_keys(ids, aliases)[n].0,
    decreases ids.len(),
{
    if ids.len() > 0 {
        let rest = ids.drop_last();
        lemma_customer_keys_from_input(rest, aliases);
        let out = customer_keys(ids, aliases);
        let prev = customer_keys(rest, aliases);
        assert forall|m: int| 0 <= m < out.len() implies id_views(ids).contains(out[m].0) by {
            if m < prev.len() {
                assert(out[m] == prev[m]);
                let j = choose|j: int| 0 <= j < id_views(rest).len() && id_views(rest)[j] == prev[m].0;
                assert(id_views(ids)[j] == prev[m].0);
            } else {
                assert(id_views(ids)[ids.len() - 1] == out[m].0);
            }
        }
        if ids_unique(ids) {
            assert(ids_unique(rest));
            assert forall|m: int, n: int| 0 <= m < n < out.len() implies out[m].0 != out[n].0 by {
                if n >= prev.len() {
                    assert(out[n].0 == ids.last()@);
                    assert(out[m] == prev[m]);
                    let j = choose|j: int| 0 <= j < id_views(rest).len() && id_views(rest)[j] == prev[m].0;
                    assert(ids[j]@ == prev[m].0);
                } else {
                    assert(out[m] == prev[m]);
                    assert(out[n] == prev[n]);
                }
            }
        }
    }
}

} // verus!
