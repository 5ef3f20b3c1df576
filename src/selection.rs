//! The lists of choices put to the operator, and the reading of an answer.

use vstd::prelude::*;
use crate::ResolveError;
use crate::keys::Key;

verus! {

/// One entry of a choice: what the operator sees, and what it stands for.
#[derive(Debug, Clone, PartialEq, Eq)]
pub struct Choice {
    pub label: String,
    pub value: String,
}

/// Each choice shows the value it stands for.
pub open spec fn plain_choices(values: Seq<String>, choices: Seq<Choice>) -> bool {
    &&& choices.len() == values.len()
    &&& forall|i: int|
        0 <= i < values.len() ==> (#[trigger] choices[i]).label@ == values[i]@ && choices[i].value@
            == values[i]@
}

/// The labels of the choices are distinct.
pub open spec fn labels_unique(choices: Seq<Choice>) -> bool {
    forall|m: int, n: int| 0 <= m < n < choices.len() ==> choices[m].label@ != choices[n].label@
}

fn plain(values: Vec<String>) -> (r: Result<Vec<Choice>, ResolveError>)
    ensures
        r is Err <==> values@.len() == 0,
        r is Err ==> r->Err_0 == ResolveError::NoCandidates,
        r is Ok ==> plain_choices(values@, r->Ok_0@),
{
    if values.len() == 0 {
        return Err(ResolveError::NoCandidates);
    }
    let mut out: Vec<Choice> = Vec::new();
    let mut i: usize = 0;
    while i < values.len()
        invariant
            i <= values@.len(),
            out@.len() == i,
            forall|k: int|
                0 <= k < i ==> (#[trigger] out@[k]).label@ == values@[k]@ && out@[k].value@
                    == values@[k]@,
        decreases values@.len() - i,
    {
        out.push(Choice { label: values[i].clone(), value: values[i].clone() });
        i = i + 1;
    }
    Ok(out)
}

/// The resources to choose from, each shown by its identifier. Fails when
/// there is none.
pub fn select_rds(identifiers: Vec<String>) -> (r: Result<Vec<Choice>, ResolveError>)
    ensures
        r is Err <==> identifiers@.len() == 0,
        r is Err ==> r->Err_0 == ResolveError::NoCandidates,
        r is Ok ==> plain_choices(identifiers@, r->Ok_0@),
{
    plain(identifiers)
}

/// The snapshots to choose from, each shown by its descriptor. Fails when
/// there is none.
pub fn select_snapshot(snapshots: Vec<String>) -> (r: Result<Vec<Choice>, ResolveError>)
    ensures
        r is Err <==> snapshots@.len() == 0,
        r is Err ==> r->Err_0 == ResolveError::NoCandidates,
        r is Ok ==> plain_choices(snapshots@, r->Ok_0@),
{
    plain(snapshots)
}

/// A key is shown by its alias, or by its id where it has none.
pub open spec fn key_label(k: Key) -> Seq<char> {
    match k.alias {
        Some(a) => a@,
        None => k.id@,
    }
}

/// The id of the last key shown by `label`, if any.
pub open spec fn labelled_id(keys: Seq<Key>, label: Seq<char>) -> Option<Seq<char>>
    decreases keys.len(),
{
    if keys.len() == 0 {
        None
    } else if key_label(keys.last()) == label {
        Some(keys.last().id@)
    } else {
        labelled_id(keys.drop_last(), label)
    }
}

/// The choices are one per label of the keys, each standing for the last key
/// shown by that label.
pub open spec fn key_choices(keys: Seq<Key>, choices: Seq<Choice>) -> bool {
    &&& labels_unique(choices)
    &&& forall|m: int|
        0 <= m < choices.len() ==> labelled_id(keys, (#[trigger] choices[m]).label@) == Some(
            choices[m].value@,
        )
    &&& forall|l: Seq<char>|
        #[trigger] labelled_id(keys, l) is Some ==> exists|m: int|
            0 <= m < choices.len() && (#[trigger] choices[m]).label@ == l
}

/// What the operator is offered, as values: each label with what it stands for.
pub open spec fn choice_views(choices: Seq<Choice>) -> Seq<(Seq<char>, Seq<char>)> {
    choices.map_values(|c: Choice| (c.label@, c.value@))
}

/// The key choices in the order their labels first appear, each standing for
/// the last key shown by its label.
pub open spec fn key_choice_list(keys: Seq<Key>) -> Seq<(Seq<char>, Seq<char>)>
    decreases keys.len(),
{
    if keys.len() == 0 {
        seq![]
    } else {
        let prev = key_choice_list(keys.drop_last());
        let l = key_label(keys.last());
        if exists|m: int| 0 <= m < prev.len() && (#[trigger] prev[m]).0 == l {
            let m = choose|m: int| 0 <= m < prev.len() && (#[trigger] prev[m]).0 == l;
            prev.update(m, (l, keys.last().id@))
        } else {
            prev.push((l, keys.last().id@))
        }
    }
}

/// Index of the choice labelled `label`, if any.
fn find_label(choices: &Vec<Choice>, label: &String) -> (r: Option<usize>)
    ensures
        match r {
            Some(m) => m < choices@.len() && choices@[m as int].label@ == label@,
            None => forall|m: int| 0 <= m < choices@.len() ==> (#[trigger] choices@[m]).label@ != label@,
        },
{
    let mut m: usize = 0;
    while m < choices.len()
        invariant
            m <= choices@.len(),
            forall|k: int| 0 <= k < m ==> (#[trigger] choices@[k]).label@ != label@,
        decreases choices@.len() - m,
    {
        if choices[m].label.eq(label) {
            return Some(m);
        }
        m = m + 1;
    }
    None
}

/// The keys to choose from, one choice per label: a key is shown by its
/// alias, or by its id where it has none, and where two keys share a label
/// the one listed last is chosen by it. Fails when there is no key.
pub fn select_keys(keys: Vec<Key>) -> (r: Result<Vec<Choice>, ResolveError>)
    ensures
        r is Err <==> keys@.len() == 0,
        r is Err ==> r->Err_0 == ResolveError::NoCandidates,
        r is Ok ==> key_choices(keys@, r->Ok_0@),
        r is Ok ==> choice_views(r->Ok_0@) == key_choice_list(keys@),
{
    if keys.len() == 0 {
        return Err(ResolveError::NoCandidates);
    }
    let mut out: Vec<Choice> = Vec::new();
    let mut i: usize = 0;
    while i < keys.len()
        invariant
            i <= keys@.len(),
            key_choices(keys@.subrange(0, i as int), out@),
            choice_views(out@) == key_choice_list(keys@.subrange(0, i as int)),
        decreases keys@.len() - i,
    {
        let k = &keys[i];
        let label = match &k.alias {
            Some(a) => a.clone(),
            None => k.id.clone(),
        };
        let ghost pre = keys@.subrange(0, i as int);
        let ghost post = keys@.subrange(0, i + 1);
        assert(pre =~= post.drop_last());
        assert(post.last() == keys@[i as int]);
        assert(label@ == key_label(keys@[i as int]));
        let choice = Choice { label: label.clone(), value: k.id.clone() };
        let ghost before = out@;
        match find_label(&out, &label) {
            Some(m) => {
                out[m] = choice;
                proof {
                    let prev = key_choice_list(pre);
                    assert(prev[m as int].0 == label@);
                    let c = choose|c: int| 0 <= c < prev.len() && (#[trigger] prev[c]).0 == label@;
                    assert(before[c].label@ == label@);
                    assert(c == m);
                    assert(choice_views(out@) =~= prev.update(m as int, (label@, k.id@)));
                }
                assert forall|n: int| 0 <= n < out@.len() implies labelled_id(
                    post,
                    (#[trigger] out@[n]).label@,
                ) == Some(out@[n].value@) by {
                    if n != m {
                        assert(out@[n] == before[n]);
                    }
                }
                assert forall|l: Seq<char>| #[trigger] labelled_id(post, l) is Some implies exists|
                    n: int,
                | 0 <= n < out@.len() && (#[trigger] out@[n]).label@ == l by {
                    if l == label@ {
                        assert(out@[m as int].label@ == l);
                    } else {
                        assert(labelled_id(pre, l) is Some);
                        let n = choose|n: int| 0 <= n < before.len() && (#[trigger] before[n]).label@ == l;
                        assert(out@[n] == before[n] || n == m);
                    }
                }
            },
            None => {
                out.push(choice);
                proof {
                    let prev = key_choice_list(pre);
                    assert(!exists|c: int| 0 <= c < prev.len() && (#[trigger] prev[c]).0 == label@) by {
                        if exists|c: int| 0 <= c < prev.len() && (#[trigger] prev[c]).0 == label@ {
                            let c = choose|c: int| 0 <= c < prev.len() && (#[trigger] prev[c]).0 == label@;
                            assert(before[c].label@ == label@);
                        }
                    }
                    assert(choice_views(out@) =~= prev.push((label@, k.id@)));
                }
                assert forall|n: int| 0 <= n < out@.len() implies labelled_id(
                    post,
                    (#[trigger] out@[n]).label@,
                ) == Some(out@[n].value@) by {
                    if n < before.len() {
                        assert(out@[n] == before[n]);
                    }
                }
                assert forall|l: Seq<char>| #[trigger] labelled_id(post, l) is Some implies exists|
                    n: int,
                | 0 <= n < out@.len() && (#[trigger] out@[n]).label@ == l by {
                    if l == label@ {
                        assert(out@[before.len() as int].label@ == l);
                    } else {
                        assert(labelled_id(pre, l) is Some);
                        let n = choose|n: int| 0 <= n < before.len() && (#[trigger] before[n]).label@ == l;
                        assert(out@[n] == before[n]);
                    }
                }
                assert(labels_unique(out@)) by {
                    assert forall|p: int, q: int| 0 <= p < q < out@.len() implies out@[p].label@
                        != out@[q].label@ by {
                        assert(out@[p] == before[p]);
                        if q < before.len() {
                            assert(out@[q] == before[q]);
                        }
                    }
                }
            },
        }
        i = i + 1;
    }
    assert(keys@.subrange(0, keys@.len() as int) =~= keys@);
    Ok(out)
}

/// The value that the choice labelled `label` stands for; `None` where no
/// choice has that label.
pub fn chosen_value(choices: &Vec<Choice>, label: &String) -> (r: Option<String>)
    ensures
        r is None <==> forall|m: int| 0 <= m < choices@.len() ==> (#[trigger] choices@[m]).label@ != label@,
        r is Some ==> exists|m: int|
            0 <= m < choices@.len() && (#[trigger] choices@[m]).label@ == label@ && r->0@
                == choices@[m].value@,
{
    match find_label(choices, label) {
        Some(m) => Some(choices[m].value.clone()),
        None => None,
    }
}

} // verus!
