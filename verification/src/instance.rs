//! Instances and the guard against a second process.
use crate::error::{labelled, BsmError, BsmResult};
use crate::paths;
use crate::paths::join;
use crate::text;
use crate::text::{owned, same};
use crate::types::{InstanceId, Timestamp};
use vstd::prelude::*;

verus! {

/// Instance lifecycle states.
#[derive(Debug, Clone, Copy, PartialEq, Eq, Structural)]
pub enum InstanceState {
    Created,
    Running,
    Stopped,
}

/// Lightweight instance descriptor.
#[derive(Debug)]
pub struct Instance {
    pub id: InstanceId,
    pub name: Option<String>,
    pub created_at: Timestamp,
    pub state: InstanceState,
}

pub struct InstanceView {
    pub id: Seq<char>,
    pub name: Option<Seq<char>>,
    pub created_at: Timestamp,
    pub state: InstanceState,
}

impl View for Instance {
    type V = InstanceView;

    open spec fn view(&self) -> InstanceView {
        InstanceView {
            id: self.id.0@,
            name: text::opt_view(self.name),
            created_at: self.created_at,
            state: self.state,
        }
    }
}

impl Clone for Instance {
    fn clone(&self) -> (r: Self)
        ensures
            r@ == self@,
    {
        Instance {
            id: InstanceId(self.id.0.clone()),
            name: match &self.name {
                Some(n) => Some(n.clone()),
                None => None,
            },
            created_at: self.created_at,
            state: self.state,
        }
    }
}

/// Nanoseconds since the epoch.
pub open spec fn epoch_nanos(t: Timestamp) -> int {
    t.secs * 1_000_000_000 + t.nanos
}

/// The identifier of an instance made at this time.
pub open spec fn instance_id_text(t: Timestamp) -> Seq<char> {
    "inst-"@ + text::signed_decimal(epoch_nanos(t))
}

/// `chrono::Utc::now` reads the clock; seconds and nanoseconds of its result.
///
/// Nothing is stated of the time itself.
#[verifier::external_body]
pub(crate) fn utc_now() -> (t: Timestamp) {
    let now = chrono::Utc::now();
    Timestamp { secs: now.timestamp(), nanos: now.timestamp_subsec_nanos() }
}

impl Instance {
    /// An instance named after one time and created at another.
    pub fn made_at(name: Option<String>, named: Timestamp, created: Timestamp) -> (r: Self)
        ensures
            r@ == (InstanceView {
                id: instance_id_text(named),
                name: text::opt_view(name),
                created_at: created,
                state: InstanceState::Created,
            }),
    {
        let nanos: i128 = named.secs as i128 * 1_000_000_000 + named.nanos as i128;
        let id = labelled("inst-", text::decimal_i128(nanos).as_str());
        Instance { id: InstanceId(id), name, created_at: created, state: InstanceState::Created }
    }

    /// A new instance, named after the time.
    pub fn new(name: Option<String>) -> (r: Self)
        ensures
            exists|named: Timestamp| r@.id == #[trigger] instance_id_text(named),
            r@.name == text::opt_view(name),
            r@.state == InstanceState::Created,
    {
        let named = utc_now();
        let created = utc_now();
        let r = Self::made_at(name, named, created);
        assert(r@.id == instance_id_text(named));
        r
    }
}

/// A simple manager for instances.
pub struct InstanceManager {
    items: Vec<Instance>,
}

impl View for InstanceManager {
    type V = Map<Seq<char>, InstanceView>;

    /// The instances by their identifiers.
    closed spec fn view(&self) -> Map<Seq<char>, InstanceView> {
        by_id(self.items@)
    }
}

spec fn holds(items: Seq<Instance>, id: Seq<char>) -> bool {
    exists|i: int| 0 <= i < items.len() && (#[trigger] items[i])@.id == id
}

spec fn position(items: Seq<Instance>, id: Seq<char>) -> int {
    choose|i: int| 0 <= i < items.len() && (#[trigger] items[i])@.id == id
}

spec fn by_id(items: Seq<Instance>) -> Map<Seq<char>, InstanceView> {
    Map::new(|id: Seq<char>| holds(items, id), |id: Seq<char>| items[position(items, id)]@)
}

spec fn distinct(items: Seq<Instance>) -> bool {
    forall|i: int, j: int|
        0 <= i < items.len() && 0 <= j < items.len() && (#[trigger] items[i])@.id == (
        #[trigger] items[j])@.id ==> i == j
}

proof fn lemma_at(items: Seq<Instance>, i: int)
    requires
        distinct(items),
        0 <= i < items.len(),
    ensures
        by_id(items).dom().contains(items[i]@.id),
        by_id(items)[items[i]@.id] == items[i]@,
{
    assert(holds(items, items[i]@.id));
    let p = position(items, items[i]@.id);
    assert(items[p]@.id == items[i]@.id);
}

impl InstanceManager {
    /// No identifier occurs twice.
    pub closed spec fn wf(&self) -> bool {
        distinct(self.items@)
    }

    pub fn new() -> (m: Self)
        ensures
            m.wf(),
            m@ == Map::<Seq<char>, InstanceView>::empty(),
    {
        let m = InstanceManager { items: Vec::new() };
        assert(m@ =~= Map::<Seq<char>, InstanceView>::empty());
        m
    }

    fn find(&self, id: &str) -> (r: Option<usize>)
        requires
            self.wf(),
        ensures
            match r {
                Some(i) => i < self.items.len() && self.items@[i as int]@.id == id@,
                None => !holds(self.items@, id@),
            },
    {
        let mut i: usize = 0;
        while i < self.items.len()
            invariant
                i <= self.items.len(),
                forall|j: int| 0 <= j < i ==> (#[trigger] self.items@[j])@.id != id@,
            decreases self.items.len() - i,
        {
            if same(self.items[i].id.0.as_str(), id) {
                return Some(i);
            }
            i = i + 1;
        }
        None
    }

    /// Adds an instance; one with the same identifier makes way.
    pub fn insert(&mut self, inst: Instance)
        requires
            old(self).wf(),
        ensures
            final(self).wf(),
            final(self)@ == old(self)@.insert(inst@.id, inst@),
    {
        let ghost before = self.items@;
        let ghost id = inst@.id;
        let ghost view = inst@;
        match self.find(inst.id.0.as_str()) {
            Some(i) => {
                self.items.set(i, inst);
                proof {
                    let now = self.items@;
                    assert forall|k: Seq<char>| by_id(now).dom().contains(k) <==> by_id(
                        before,
                    ).insert(id, view).dom().contains(k) by {
                        if holds(before, k) {
                            let p = position(before, k);
                            assert(now[p]@.id == before[p]@.id);
                        }
                        if holds(now, k) {
                            let p = position(now, k);
                            assert(now[p]@.id == before[p]@.id);
                        }
                        assert(now[i as int]@.id == id);
                    }
                    assert forall|k: Seq<char>| by_id(now).dom().contains(k) implies by_id(now)[k]
                        == by_id(before).insert(id, view)[k] by {
                        let p = position(now, k);
                        lemma_at(now, p);
                        lemma_at(before, p);
                    }
                    assert(by_id(now) =~= by_id(before).insert(id, view));
                }
            },
            None => {
                self.items.push(inst);
                proof {
                    let now = self.items@;
                    assert forall|a: int, b: int|
                        0 <= a < now.len() && 0 <= b < now.len() && (#[trigger] now[a])@.id == (
                        #[trigger] now[b])@.id implies a == b by {
                        if a < before.len() && b < before.len() {
                            assert(before[a]@.id == before[b]@.id);
                        } else if a < before.len() {
                            assert(holds(before, before[a]@.id));
                        } else if b < before.len() {
                            assert(holds(before, before[b]@.id));
                        }
                    }
                    assert forall|k: Seq<char>| by_id(now).dom().contains(k) <==> by_id(
                        before,
                    ).insert(id, view).dom().contains(k) by {
                        if holds(before, k) {
                            let p = position(before, k);
                            assert(now[p]@.id == before[p]@.id);
                        }
                        if holds(now, k) {
                            let p = position(now, k);
                            if p < before.len() {
                                assert(before[p]@.id == k);
                            }
                        }
                        assert(now[before.len() as int]@.id == id);
                    }
                    assert forall|k: Seq<char>| by_id(now).dom().contains(k) implies by_id(now)[k]
                        == by_id(before).insert(id, view)[k] by {
                        let p = position(now, k);
                        lemma_at(now, p);
                        if p < before.len() {
                            lemma_at(before, p);
                        }
                    }
                    assert(by_id(now) =~= by_id(before).insert(id, view));
                }
            },
        }
    }

    /// Makes a new instance and returns its identifier.
    pub fn create(&mut self, name: Option<String>) -> (r: BsmResult<InstanceId>)
        requires
            old(self).wf(),
        ensures
            final(self).wf(),
            r matches Ok(id) && {
                &&& exists|named: Timestamp| id.0@ == #[trigger] instance_id_text(named)
                &&& final(self)@.dom() == old(self)@.dom().insert(id.0@)
                &&& final(self)@ == old(self)@.insert(id.0@, final(self)@[id.0@])
                &&& final(self)@[id.0@].id == id.0@
                &&& final(self)@[id.0@].name == text::opt_view(name)
                &&& final(self)@[id.0@].state == InstanceState::Created
            },
    {
        let inst = Instance::new(name);
        let ghost view = inst@;
        let id = InstanceId(inst.id.0.clone());
        self.insert(inst);
        assert(self@ =~= old(self)@.insert(view.id, view));
        assert(self@.dom() =~= old(self)@.dom().insert(view.id));
        Ok(id)
    }

    /// The instance with this identifier, if there is one.
    pub fn get(&self, id: &InstanceId) -> (r: BsmResult<Option<Instance>>)
        requires
            self.wf(),
        ensures
            match r {
                Ok(Some(inst)) => self@.dom().contains(id.0@) && inst@ == self@[id.0@],
                Ok(None) => !self@.dom().contains(id.0@),
                Err(_) => false,
            },
    {
        match self.find(id.0.as_str()) {
            Some(i) => {
                proof {
                    lemma_at(self.items@, i as int);
                }
                Ok(Some(self.items[i].clone()))
            },
            None => Ok(None),
        }
    }

    /// All instances, each once.
    pub fn list(&self) -> (r: BsmResult<Vec<Instance>>)
        requires
            self.wf(),
        ensures
            r matches Ok(items) && {
                &&& forall|i: int|
                    0 <= i < items.len() ==> self@.dom().contains((#[trigger] items@[i])@.id)
                        && self@[items@[i]@.id] == items@[i]@
                &&& forall|id: Seq<char>| #[trigger]
                    self@.dom().contains(id) ==> exists|i: int|
                        0 <= i < items.len() && (#[trigger] items@[i])@.id == id
                &&& forall|i: int, j: int|
                    0 <= i < items.len() && 0 <= j < items.len() && (#[trigger] items@[i])@.id == (
                    #[trigger] items@[j])@.id ==> i == j
            },
    {
        let mut items: Vec<Instance> = Vec::new();
        let mut i: usize = 0;
        while i < self.items.len()
            invariant
                i <= self.items.len(),
                items.len() == i,
                forall|j: int| 0 <= j < i ==> (#[trigger] items@[j])@ == self.items@[j]@,
            decreases self.items.len() - i,
        {
            items.push(self.items[i].clone());
            i = i + 1;
        }
        proof {
            assert forall|j: int| 0 <= j < items.len() implies self@.dom().contains(
                (#[trigger] items@[j])@.id,
            ) && self@[items@[j]@.id] == items@[j]@ by {
                lemma_at(self.items@, j);
            }
            assert forall|id: Seq<char>| #[trigger] self@.dom().contains(id) implies exists|j: int|
                0 <= j < items.len() && (#[trigger] items@[j])@.id == id by {
                let p = position(self.items@, id);
                assert(items@[p]@.id == id);
            }
            assert forall|a: int, b: int|
                0 <= a < items.len() && 0 <= b < items.len() && (#[trigger] items@[a])@.id == (
                #[trigger] items@[b])@.id implies a == b by {
                assert(self.items@[a]@.id == self.items@[b]@.id);
            }
        }
        Ok(items)
    }

    /// Removes the instance with this identifier.
    pub fn destroy(&mut self, id: &InstanceId) -> (r: BsmResult<()>)
        requires
            old(self).wf(),
        ensures
            final(self).wf(),
            final(self)@ == old(self)@.remove(id.0@),
            if old(self)@.dom().contains(id.0@) {
                r is Ok
            } else {
                r matches Err(BsmError::Unknown(m)) && m@ == "instance not found: "@ + id.0@
            },
    {
        let ghost before = self.items@;
        match self.find(id.0.as_str()) {
            Some(i) => {
                let _gone = self.items.remove(i);
                proof {
                    let now = self.items@;
                    let k0 = id.0@;
                    lemma_at(before, i as int);
                    assert forall|a: int, b: int|
                        0 <= a < now.len() && 0 <= b < now.len() && (#[trigger] now[a])@.id == (
                        #[trigger] now[b])@.id implies a == b by {
                        let a2 = if a < i {
                            a
                        } else {
                            a + 1
                        };
                        let b2 = if b < i {
                            b
                        } else {
                            b + 1
                        };
                        assert(before[a2]@.id == before[b2]@.id);
                    }
                    assert forall|k: Seq<char>| by_id(now).dom().contains(k) <==> by_id(
                        before,
                    ).remove(k0).dom().contains(k) by {
                        if holds(now, k) {
                            let p = position(now, k);
                            let q = if p < i {
                                p
                            } else {
                                p + 1
                            };
                            assert(before[q]@.id == k);
                            assert(before[i as int]@.id == k0);
                        }
                        if holds(before, k) && k != k0 {
                            let q = position(before, k);
                            let p = if q < i {
                                q
                            } else {
                                q - 1
                            };
                            assert(now[p]@.id == k);
                        }
                    }
                    assert forall|k: Seq<char>| by_id(now).dom().contains(k) implies by_id(now)[k]
                        == by_id(before).remove(k0)[k] by {
                        let p = position(now, k);
                        let q = if p < i {
                            p
                        } else {
                            p + 1
                        };
                        lemma_at(now, p);
                        lemma_at(before, q);
                    }
                    assert(by_id(now) =~= by_id(before).remove(k0));
                }
                Ok(())
            },
            None => {
                assert(self@ =~= old(self)@.remove(id.0@));
                Err(BsmError::Unknown(labelled("instance not found: ", id.0.as_str())))
            },
        }
    }
}

/// Holds the lock file that keeps a second process from starting.
#[derive(Debug)]
pub struct SingleInstanceGuard {
    pub lock_path: String,
}

#[derive(Debug)]
pub enum InstanceError {
    AlreadyRunning,
    SystemError(String),
}

impl InstanceError {
    pub open spec fn text(&self) -> Seq<char> {
        match self {
            InstanceError::AlreadyRunning =>
                "Another instance of Baxter's Stereo Mix is already running"@,
            InstanceError::SystemError(s) => "System error acquiring instance guard: "@ + s@,
        }
    }

    /// The message shown to users.
    pub fn message(&self) -> (r: String)
        ensures
            r@ == self.text(),
    {
        match self {
            InstanceError::AlreadyRunning => owned(
                "Another instance of Baxter's Stereo Mix is already running",
            ),
            InstanceError::SystemError(s) => labelled(
                "System error acquiring instance guard: ",
                s.as_str(),
            ),
        }
    }
}

/// What came of creating the lock file.
#[derive(Debug)]
pub enum LockOutcome {
    Created,
    AlreadyExists,
    Failed(String),
}

impl SingleInstanceGuard {
    /// Where the lock file lies.
    pub fn lock_path_in(temp_dir: &str) -> (path: String)
        ensures
            path@ == paths::joined_path(temp_dir@, "bsm_single_instance.lock"@),
    {
        join(temp_dir, "bsm_single_instance.lock")
    }

    /// The guard, once the lock file at `lock_path` was created.
    pub fn acquire(lock_path: String, outcome: LockOutcome) -> (r: Result<Self, InstanceError>)
        ensures
            match outcome {
                LockOutcome::Created => r matches Ok(guard) && guard.lock_path == lock_path,
                LockOutcome::AlreadyExists => r == Err::<Self, InstanceError>(
                    InstanceError::AlreadyRunning,
                ),
                LockOutcome::Failed(m) => r == Err::<Self, InstanceError>(
                    InstanceError::SystemError(m),
                ),
            },
    {
        match outcome {
            LockOutcome::Created => Ok(SingleInstanceGuard { lock_path }),
            LockOutcome::AlreadyExists => Err(InstanceError::AlreadyRunning),
            LockOutcome::Failed(m) => Err(InstanceError::SystemError(m)),
        }
    }
}

/// The identifier of an instance tells the nanoseconds of its time.
pub proof fn instance_ids_tell_their_time(t: Timestamp)
    requires
        t.secs >= 0,
    ensures
        ({
            let id = instance_id_text(t);
            &&& id.take(5) == "inst-"@
            &&& text::numeral_value(id.skip(5)) == t.secs * 1_000_000_000 + t.nanos
        }),
{
    reveal_strlit("inst-");
    let n = epoch_nanos(t);
    text::signed_numerals_read_back(n);
    text::numerals_read_back(n as nat);
    let id = instance_id_text(t);
    assert(id.take(5) =~= "inst-"@);
    assert(id.skip(5) =~= text::signed_decimal(n));
}

/// Only a lock file that was just made lets a process in: one that is there already
/// means that another runs.
pub proof fn one_process_at_a_time(
    path: String,
    made: Result<SingleInstanceGuard, InstanceError>,
    there: Result<SingleInstanceGuard, InstanceError>,
)
    requires
        call_ensures(SingleInstanceGuard::acquire, (path, LockOutcome::Created), made),
        call_ensures(SingleInstanceGuard::acquire, (path, LockOutcome::AlreadyExists), there),
    ensures
        made is Ok && made->Ok_0.lock_path == path,
        there is Err && there->Err_0 is AlreadyRunning,
{
}

/// The lock file lies in the directory for temporary files.
pub proof fn the_lock_lies_in_the_temporary_directory(dir: &str, path: String)
    requires
        call_ensures(SingleInstanceGuard::lock_path_in, (dir,), path),
        dir@.len() > 0,
        dir@.last() != '/',
    ensures
        path@ == dir@ + "/bsm_single_instance.lock"@,
{
    reveal_strlit("bsm_single_instance.lock");
    reveal_strlit("/bsm_single_instance.lock");
    assert(path@ =~= dir@ + "/bsm_single_instance.lock"@);
}

/// What was put in is found under its identifier, as it was, and all else stays.
pub proof fn inserted_instances_are_found(
    m: &mut InstanceManager,
    inst: Instance,
    other: Seq<char>,
)
    requires
        old(m).wf(),
        call_ensures(InstanceManager::insert, (m, inst), ()),
    ensures
        final(m).wf(),
        final(m)@.dom().contains(inst@.id),
        final(m)@[inst@.id] == inst@,
        other != inst@.id ==> (final(m)@.dom().contains(other) <==> old(m)@.dom().contains(other)),
        other != inst@.id && old(m)@.dom().contains(other) ==> final(m)@[other] == old(m)@[other],
{
}

/// What is destroyed is found no more, and all else stays; destroying what is not there
/// fails.
pub proof fn destroyed_instances_are_gone(
    m: &mut InstanceManager,
    id: InstanceId,
    r: BsmResult<()>,
    other: Seq<char>,
)
    requires
        old(m).wf(),
        call_ensures(InstanceManager::destroy, (m, &id), r),
    ensures
        r is Ok <==> old(m)@.dom().contains(id.0@),
        !final(m)@.dom().contains(id.0@),
        other != id.0@ ==> (final(m)@.dom().contains(other) <==> old(m)@.dom().contains(other)),
        other != id.0@ && old(m)@.dom().contains(other) ==> final(m)@[other] == old(m)@[other],
{
}

} // verus!
