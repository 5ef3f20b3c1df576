//! The resolution of the parameters, as a state machine: it says which
//! listing or question comes next, and takes the answer back as an event.
//! Explicit values are taken as they are; the stages come in a fixed order,
//! resource, key, reuse of a snapshot, snapshot, and none is gone back to.

use vstd::prelude::*;
use crate::ResolveError;
use crate::keys::{Key, id_views};
use crate::selection::{
    Choice, choice_views, key_choice_list, plain_choices, select_keys, select_rds,
    select_snapshot, chosen_value,
};

verus! {

/// The kind of resource to resolve.
#[derive(Debug, Clone, Copy, PartialEq, Eq, Structural)]
pub enum DatabaseType {
    Cluster,
    Database,
}

/// What the caller gives: the values it already knows.
#[derive(Debug, Clone, PartialEq, Eq)]
pub struct Request {
    pub db_identifier: Option<String>,
    pub kms_key_id: Option<String>,
    pub db_type: DatabaseType,
    pub snapshot_id: Option<String>,
}

/// The outcome: every parameter of the snapshot copy.
#[derive(Debug, Clone, PartialEq, Eq)]
pub struct ResolvedParameters {
    pub resource_id: String,
    pub key_id: String,
    pub reuse_existing: bool,
    pub snapshot: String,
}

/// The parameter that a choice is put for.
#[derive(Debug, Clone, Copy, PartialEq, Eq, Structural)]
pub enum Field {
    Resource,
    Key,
    Snapshot,
}

/// The word for a kind of resource.
pub open spec fn kind_word(t: DatabaseType) -> Seq<char> {
    match t {
        DatabaseType::Cluster => seq!['c', 'l', 'u', 's', 't', 'e', 'r'],
        DatabaseType::Database => seq!['d', 'a', 't', 'a', 'b', 'a', 's', 'e'],
    }
}

impl DatabaseType {
    /// The word for this kind of resource.
    pub fn to_string(&self) -> (r: String)
        ensures
            r@ == kind_word(*self),
    {
        match self {
            DatabaseType::Cluster => {
                proof {
                    reveal_strlit("cluster");
                }
                let r = String::from_str("cluster");
                assert(r@ =~= kind_word(*self));
                r
            },
            DatabaseType::Database => {
                proof {
                    reveal_strlit("database");
                }
                let r = String::from_str("database");
                assert(r@ =~= kind_word(*self));
                r
            },
        }
    }
}

/// The stage a resolution is in: the first parameter still unknown.
#[derive(Debug, Clone, Copy, PartialEq, Eq, Structural)]
pub enum Stage {
    Resource,
    Key,
    Reuse,
    Snapshot,
    Done,
}

/// What the caller has to do next.
#[derive(Debug, Clone, PartialEq, Eq)]
pub enum Action {
    ListInstances,
    ListClusters,
    ListKeys,
    /// List the snapshots of this cluster.
    ListSnapshots(String),
    /// Ask the operator to pick one of these labels.
    Choose(Field, Vec<String>),
    /// Ask the operator whether to use an existing snapshot.
    ConfirmReuse,
    Finish(ResolvedParameters),
}

/// What the caller reports back.
#[derive(Debug, Clone, PartialEq, Eq)]
pub enum Event {
    /// The resource ids, or the snapshot descriptors, that were listed.
    Listed(Vec<String>),
    /// The customer-managed keys that were listed.
    KeysListed(Vec<Key>),
    /// The label that the operator picked.
    Chosen(String),
    /// The operator's answer to the question on reuse.
    Confirmed(bool),
}

pub ghost enum ActionView {
    ListInstances,
    ListClusters,
    ListKeys,
    ListSnapshots(Seq<char>),
    Choose(Field, Seq<Seq<char>>),
    ConfirmReuse,
    Finish(Seq<char>, Seq<char>, bool, Seq<char>),
}

pub ghost enum EventView {
    Listed(Seq<Seq<char>>),
    KeysListed(Seq<Key>),
    Chosen(Seq<char>),
    Confirmed(bool),
}

impl View for Action {
    type V = ActionView;

    open spec fn view(&self) -> ActionView {
        match self {
            Action::ListInstances => ActionView::ListInstances,
            Action::ListClusters => ActionView::ListClusters,
            Action::ListKeys => ActionView::ListKeys,
            Action::ListSnapshots(c) => ActionView::ListSnapshots(c@),
            Action::Choose(f, labels) => ActionView::Choose(*f, id_views(labels@)),
            Action::ConfirmReuse => ActionView::ConfirmReuse,
            Action::Finish(p) => ActionView::Finish(
                p.resource_id@,
                p.key_id@,
                p.reuse_existing,
                p.snapshot@,
            ),
        }
    }
}

impl View for Event {
    type V = EventView;

    open spec fn view(&self) -> EventView {
        match self {
            Event::Listed(v) => EventView::Listed(id_views(v@)),
            Event::KeysListed(k) => EventView::KeysListed(k@),
            Event::Chosen(l) => EventView::Chosen(l@),
            Event::Confirmed(b) => EventView::Confirmed(*b),
        }
    }
}

/// A resolution in progress.
pub struct Resolution {
    db_type: DatabaseType,
    resource_id: Option<String>,
    key_id: Option<String>,
    reuse_existing: Option<bool>,
    snapshot: Option<String>,
    /// The choices put to the operator for the parameter of the stage.
    offered: Option<Vec<Choice>>,
}

pub ghost struct ResolutionView {
    pub db_type: DatabaseType,
    pub resource: Option<Seq<char>>,
    pub key: Option<Seq<char>>,
    pub reuse: Option<bool>,
    pub snapshot: Option<Seq<char>>,
    pub offered: Option<Seq<(Seq<char>, Seq<char>)>>,
}

pub open spec fn opt_view(o: Option<String>) -> Option<Seq<char>> {
    match o {
        Some(s) => Some(s@),
        None => None,
    }
}

impl View for Resolution {
    type V = ResolutionView;

    closed spec fn view(&self) -> ResolutionView {
        ResolutionView {
            db_type: self.db_type,
            resource: opt_view(self.resource_id),
            key: opt_view(self.key_id),
            reuse: self.reuse_existing,
            snapshot: opt_view(self.snapshot),
            offered: match self.offered {
                Some(c) => Some(choice_views(c@)),
                None => None,
            },
        }
    }
}

/// A resolution that starts from the values given.
pub open spec fn initial(
    db_type: DatabaseType,
    resource: Option<Seq<char>>,
    key: Option<Seq<char>>,
    snapshot: Option<Seq<char>>,
) -> ResolutionView {
    ResolutionView { db_type, resource, key, reuse: None, snapshot, offered: None }
}

pub open spec fn stage(v: ResolutionView) -> Stage {
    if v.resource is None {
        Stage::Resource
    } else if v.key is None {
        Stage::Key
    } else if v.reuse is None {
        Stage::Reuse
    } else if v.snapshot is None {
        Stage::Snapshot
    } else {
        Stage::Done
    }
}

pub open spec fn labels(c: Seq<(Seq<char>, Seq<char>)>) -> Seq<Seq<char>> {
    c.map_values(|p: (Seq<char>, Seq<char>)| p.0)
}

/// Each label stands for one value only.
pub open spec fn consistent(c: Seq<(Seq<char>, Seq<char>)>) -> bool {
    forall|m: int, n: int| 0 <= m < c.len() && 0 <= n < c.len() && c[m].0 == c[n].0 ==> c[m].1 == c[n].1
}

/// Choices are put only for a parameter that is still unknown, never as an
/// empty list, and each label stands for one value.
pub open spec fn well_formed(v: ResolutionView) -> bool {
    v.offered is Some ==> {
        &&& stage(v) == Stage::Resource || stage(v) == Stage::Key || stage(v) == Stage::Snapshot
        &&& v.offered->0.len() > 0
        &&& consistent(v.offered->0)
    }
}

/// What the caller is asked to do in the state `v`.
pub open spec fn action(v: ResolutionView) -> ActionView {
    match stage(v) {
        Stage::Resource => match v.offered {
            Some(c) => ActionView::Choose(Field::Resource, labels(c)),
            None => if v.db_type == DatabaseType::Cluster {
                ActionView::ListClusters
            } else {
                ActionView::ListInstances
            },
        },
        Stage::Key => match v.offered {
            Some(c) => ActionView::Choose(Field::Key, labels(c)),
            None => ActionView::ListKeys,
        },
        Stage::Reuse => ActionView::ConfirmReuse,
        Stage::Snapshot => match v.offered {
            Some(c) => ActionView::Choose(Field::Snapshot, labels(c)),
            None => ActionView::ListSnapshots(v.resource->0),
        },
        Stage::Done => ActionView::Finish(v.resource->0, v.key->0, v.reuse->0, v.snapshot->0),
    }
}

/// The value that the label `l` stands for among the choices `c`.
pub open spec fn value_of(c: Seq<(Seq<char>, Seq<char>)>, l: Seq<char>) -> Option<Seq<char>> {
    if exists|m: int| 0 <= m < c.len() && (#[trigger] c[m]).0 == l {
        Some(c[choose|m: int| 0 <= m < c.len() && (#[trigger] c[m]).0 == l].1)
    } else {
        None
    }
}

/// The state with `value` taken for the parameter of the current stage.
pub open spec fn settle(v: ResolutionView, value: Seq<char>) -> ResolutionView {
    let w = ResolutionView { offered: None, ..v };
    match stage(v) {
        Stage::Resource => ResolutionView { resource: Some(value), ..w },
        Stage::Key => ResolutionView { key: Some(value), ..w },
        _ => ResolutionView { snapshot: Some(value), ..w },
    }
}

/// The state after the event `e` in the state `v`, or why `e` is refused.
pub open spec fn step(v: ResolutionView, e: EventView) -> Result<ResolutionView, ResolveError> {
    match e {
        EventView::Listed(ids) => if v.offered is None && (stage(v) == Stage::Resource || stage(v)
            == Stage::Snapshot) {
            if ids.len() == 0 {
                Err(ResolveError::NoCandidates)
            } else {
                Ok(
                    ResolutionView {
                        offered: Some(ids.map_values(|x: Seq<char>| (x, x))),
                        ..v
                    },
                )
            }
        } else {
            Err(ResolveError::UnexpectedEvent)
        },
        EventView::KeysListed(keys) => if v.offered is None && stage(v) == Stage::Key {
            if keys.len() == 0 {
                Err(ResolveError::NoCandidates)
            } else {
                Ok(ResolutionView { offered: Some(key_choice_list(keys)), ..v })
            }
        } else {
            Err(ResolveError::UnexpectedEvent)
        },
        EventView::Chosen(l) => match v.offered {
            Some(c) => match value_of(c, l) {
                Some(value) => Ok(settle(v, value)),
                None => Err(ResolveError::UnknownChoice),
            },
            None => Err(ResolveError::UnexpectedEvent),
        },
        EventView::Confirmed(b) => if stage(v) == Stage::Reuse {
            Ok(ResolutionView { reuse: Some(b), ..v })
        } else {
            Err(ResolveError::UnexpectedEvent)
        },
    }
}

/// Copies of the labels of the choices.
fn labels_of(c: &Vec<Choice>) -> (r: Vec<String>)
    ensures
        id_views(r@) == labels(choice_views(c@)),
{
    let mut out: Vec<String> = Vec::new();
    let mut i: usize = 0;
    while i < c.len()
        invariant
            i <= c@.len(),
            out@.len() == i,
            forall|k: int| 0 <= k < i ==> (#[trigger] out@[k])@ == c@[k].label@,
        decreases c@.len() - i,
    {
        out.push(c[i].label.clone());
        i = i + 1;
    }
    assert(id_views(out@) =~= labels(choice_views(c@)));
    out
}

impl Resolution {
    /// Starts a resolution with the values the request gives.
    pub fn new(request: Request) -> (r: Resolution)
        ensures
            r@ == initial(
                request.db_type,
                opt_view(request.db_identifier),
                opt_view(request.kms_key_id),
                opt_view(request.snapshot_id),
            ),
            well_formed(r@),
    {
        Resolution {
            db_type: request.db_type,
            resource_id: request.db_identifier,
            key_id: request.kms_key_id,
            reuse_existing: None,
            snapshot: request.snapshot_id,
            offered: None,
        }
    }

    pub closed spec fn well_formed(&self) -> bool {
        well_formed(self@)
    }

    /// The stage the resolution is in.
    pub fn stage(&self) -> (r: Stage)
        ensures
            r == stage(self@),
    {
        if self.resource_id.is_none() {
            Stage::Resource
        } else if self.key_id.is_none() {
            Stage::Key
        } else if self.reuse_existing.is_none() {
            Stage::Reuse
        } else if self.snapshot.is_none() {
            Stage::Snapshot
        } else {
            Stage::Done
        }
    }

    /// What the caller has to do next.
    pub fn next_action(&self) -> (r: Action)
        requires
            self.well_formed(),
        ensures
            r@ == action(self@),
    {
        let st = self.stage();
        if let Some(c) = &self.offered {
            let field = match st {
                Stage::Resource => Field::Resource,
                Stage::Key => Field::Key,
                _ => Field::Snapshot,
            };
            return Action::Choose(field, labels_of(c));
        }
        match st {
            Stage::Resource => match self.db_type {
                DatabaseType::Cluster => Action::ListClusters,
                DatabaseType::Database => Action::ListInstances,
            },
            Stage::Key => Action::ListKeys,
            Stage::Reuse => Action::ConfirmReuse,
            Stage::Snapshot => match &self.resource_id {
                Some(id) => Action::ListSnapshots(id.clone()),
                None => unreached(),
            },
            Stage::Done => match (&self.resource_id, &self.key_id, self.reuse_existing, &self.snapshot) {
                (Some(res), Some(key), Some(reuse), Some(snap)) => Action::Finish(
                    ResolvedParameters {
                        resource_id: res.clone(),
                        key_id: key.clone(),
                        reuse_existing: reuse,
                        snapshot: snap.clone(),
                    },
                ),
                _ => unreached(),
            },
        }
    }

    /// Takes the event `event` in; where it is refused the resolution stays
    /// as it was.
    pub fn handle(&mut self, event: Event) -> (r: Result<(), ResolveError>)
        requires
            old(self).well_formed(),
        ensures
            final(self).well_formed(),
            match step(old(self)@, event@) {
                Ok(v) => r is Ok && final(self)@ == v,
                Err(e) => r == Err::<(), ResolveError>(e) && final(self)@ == old(self)@,
            },
    {
        let st = self.stage();
        match event {
            Event::Listed(ids) => {
                if self.offered.is_some() || !(st == Stage::Resource || st == Stage::Snapshot) {
                    return Err(ResolveError::UnexpectedEvent);
                }
                let ghost idv = id_views(ids@);
                let choices = if st == Stage::Resource {
                    select_rds(ids)
                } else {
                    select_snapshot(ids)
                };
                match choices {
                    Ok(c) => {
                        assert(choice_views(c@) =~= idv.map_values(|x: Seq<char>| (x, x)));
                        self.offered = Some(c);
                        Ok(())
                    },
                    Err(e) => Err(e),
                }
            },
            Event::KeysListed(keys) => {
                if self.offered.is_some() || st != Stage::Key {
                    return Err(ResolveError::UnexpectedEvent);
                }
                match select_keys(keys) {
                    Ok(c) => {
                        self.offered = Some(c);
                        Ok(())
                    },
                    Err(e) => Err(e),
                }
            },
            Event::Chosen(label) => {
                let value = match &self.offered {
                    None => {
                        return Err(ResolveError::UnexpectedEvent);
                    },
                    Some(c) => {
                        let ghost cv = choice_views(c@);
                        match chosen_value(c, &label) {
                            None => {
                                assert(value_of(cv, label@) is None) by {
                                    if exists|m: int| 0 <= m < cv.len() && (#[trigger] cv[m]).0 == label@ {
                                        let m = choose|m: int| 0 <= m < cv.len() && (#[trigger] cv[m]).0 == label@;
                                        assert(c@[m].label@ == label@);
                                    }
                                }
                                return Err(ResolveError::UnknownChoice);
                            },
                            Some(v) => {
                                assert(value_of(cv, label@) == Some(v@)) by {
                                    let m = choose|m: int|
                                        0 <= m < c@.len() && (#[trigger] c@[m]).label@ == label@ && v@
                                            == c@[m].value@;
                                    assert(cv[m].0 == label@);
                                }
                                v
                            },
                        }
                    },
                };
                self.offered = None;
                match st {
                    Stage::Resource => {
                        self.resource_id = Some(value);
                    },
                    Stage::Key => {
                        self.key_id = Some(value);
                    },
                    _ => {
                        self.snapshot = Some(value);
                    },
                }
                Ok(())
            },
            Event::Confirmed(b) => {
                if st != Stage::Reuse {
                    return Err(ResolveError::UnexpectedEvent);
                }
                self.reuse_existing = Some(b);
                Ok(())
            },
        }
    }
}

/// The state after the events `events`, taken in order from `v`, or the
/// first refusal.
pub open spec fn run(v: ResolutionView, events: Seq<EventView>) -> Result<ResolutionView, ResolveError>
    decreases events.len(),
{
    if events.len() == 0 {
        Ok(v)
    } else {
        match step(v, events[0]) {
            Ok(w) => run(w, events.subrange(1, events.len() as int)),
            Err(e) => Err(e),
        }
    }
}

/// The action asks for a listing or a choice of the resource.
pub open spec fn asks_resource(a: ActionView) -> bool {
    ||| a == ActionView::ListInstances
    ||| a == ActionView::ListClusters
    ||| (a is Choose && a->Choose_0 == Field::Resource)
}

/// The action asks for a listing or a choice of the key.
pub open spec fn asks_key(a: ActionView) -> bool {
    a == ActionView::ListKeys || (a is Choose && a->Choose_0 == Field::Key)
}

/// The action asks for a listing or a choice of the snapshot.
pub open spec fn asks_snapshot(a: ActionView) -> bool {
    a is ListSnapshots || (a is Choose && a->Choose_0 == Field::Snapshot)
}

/// A parameter that is known is never listed or asked for, and no event
/// changes it: an explicit value is kept exactly as given.
pub proof fn lemma_known_values_are_kept(v: ResolutionView, events: Seq<EventView>)
    requires
        well_formed(v),
    ensures
        v.resource is Some ==> !asks_resource(action(v)),
        v.key is Some ==> !asks_key(action(v)),
        v.snapshot is Some ==> !asks_snapshot(action(v)),
        run(v, events) is Ok ==> {
            let w = run(v, events)->Ok_0;
            &&& v.resource is Some ==> w.resource == v.resource
            &&& v.key is Some ==> w.key == v.key
            &&& v.snapshot is Some ==> w.snapshot == v.snapshot
        },
    decreases events.len(),
{
    if events.len() > 0 {
        match step(v, events[0]) {
            Ok(w) => {
                lemma_step_well_formed(v, events[0]);
                lemma_known_values_are_kept(w, events.subrange(1, events.len() as int));
            },
            Err(_) => {},
        }
    }
}

/// When the resource, the key and the snapshot are all given, the only
/// question is whether to reuse a snapshot, and its answer finishes the
/// resolution with the given values as they are.
pub proof fn lemma_explicit_values_short_circuit(
    db_type: DatabaseType,
    resource: Seq<char>,
    key: Seq<char>,
    snapshot: Seq<char>,
    reuse: bool,
)
    ensures
        action(initial(db_type, Some(resource), Some(key), Some(snapshot))) == ActionView::ConfirmReuse,
        step(initial(db_type, Some(resource), Some(key), Some(snapshot)), EventView::Confirmed(reuse)) is Ok,
        action(
            step(
                initial(db_type, Some(resource), Some(key), Some(snapshot)),
                EventView::Confirmed(reuse),
            )->Ok_0,
        ) == ActionView::Finish(resource, key, reuse, snapshot),
{
}

/// The outcome of a resolution depends on nothing but where it starts and
/// the events it takes: the same request, the same service responses and
/// the same answers give the same parameters on every run.
pub proof fn lemma_resolution_is_deterministic(
    v1: ResolutionView,
    v2: ResolutionView,
    events1: Seq<EventView>,
    events2: Seq<EventView>,
)
    requires
        v1 == v2,
        events1 == events2,
    ensures
        run(v1, events1) == run(v2, events2),
        run(v1, events1) is Ok ==> action(run(v1, events1)->Ok_0) == action(run(v2, events2)->Ok_0),
{
}

/// The operator is never asked to choose from an empty list.
pub proof fn lemma_no_empty_choice(v: ResolutionView, events: Seq<EventView>)
    requires
        well_formed(v),
    ensures
        action(v) is Choose ==> action(v)->Choose_1.len() > 0,
        run(v, events) is Ok ==> well_formed(run(v, events)->Ok_0),
    decreases events.len(),
{
    if events.len() > 0 {
        match step(v, events[0]) {
            Ok(w) => {
                lemma_step_well_formed(v, events[0]);
                lemma_no_empty_choice(w, events.subrange(1, events.len() as int));
            },
            Err(_) => {},
        }
    }
}

proof fn lemma_step_well_formed(v: ResolutionView, e: EventView)
    requires
        well_formed(v),
    ensures
        step(v, e) is Ok ==> well_formed(step(v, e)->Ok_0),
{
    if step(v, e) is Ok {
        match e {
            EventView::KeysListed(keys) => {
                lemma_key_choice_list_consistent(keys);
            },
            _ => {},
        }
    }
}

proof fn lemma_key_choice_list_consistent(keys: Seq<Key>)
    ensures
        consistent(key_choice_list(keys)),
        keys.len() > 0 ==> key_choice_list(keys).len() > 0,
    decreases keys.len(),
{
    if keys.len() > 0 {
        lemma_key_choice_list_consistent(keys.drop_last());
        lemma_key_choice_list_unique(keys);
    }
}

proof fn lemma_key_choice_list_unique(keys: Seq<Key>)
    ensures
        forall|m: int, n: int|
            0 <= m < n < key_choice_list(keys).len() ==> key_choice_list(keys)[m].0
                != key_choice_list(keys)[n].0,
    decreases keys.len(),
{
    if keys.len() > 0 {
        lemma_key_choice_list_unique(keys.drop_last());
        let prev = key_choice_list(keys.drop_last());
        let cur = key_choice_list(keys);
        let l = crate::selection::key_label(keys.last());
        if exists|m: int| 0 <= m < prev.len() && (#[trigger] prev[m]).0 == l {
            let c = choose|m: int| 0 <= m < prev.len() && (#[trigger] prev[m]).0 == l;
            assert forall|m: int, n: int| 0 <= m < n < cur.len() implies cur[m].0 != cur[n].0 by {
                assert(cur[m].0 == prev[m].0);
                assert(cur[n].0 == prev[n].0);
            }
        } else {
            assert forall|m: int, n: int| 0 <= m < n < cur.len() implies cur[m].0 != cur[n].0 by {
                assert(cur[m] == prev[m]);
                if n < prev.len() {
                    assert(cur[n] == prev[n]);
                }
            }
        }
    }
}

} // verus!
