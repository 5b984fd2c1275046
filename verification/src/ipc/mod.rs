//! Binder-style IPC: parcels of typed values, the core services' transactions, a registry of
//! services, and a bounded shared queue.

pub mod transaction;
pub mod services;

use vstd::prelude::*;
use crate::audio::ring_buffer::MutexRingBuffer;
use crate::keyed::StrMap;
use crate::ipc::services::{CoreServiceState, activity_transact, package_transact, window_transact, input_transact};

verus! {

/// A value in a parcel.
#[derive(Debug)]
pub enum ParcelValue {
    I32(i32),
    I64(i64),
    Bool(bool),
    String(String),
    Bytes(Vec<u8>),
    Null,
}

/// The model of a parcel value: texts and bytes as sequences.
pub enum ValueModel {
    I32(i32),
    I64(i64),
    Bool(bool),
    Str(Seq<char>),
    Bytes(Seq<u8>),
    Null,
}

impl View for ParcelValue {
    type V = ValueModel;

    open spec fn view(&self) -> ValueModel {
        match self {
            ParcelValue::I32(v) => ValueModel::I32(*v),
            ParcelValue::I64(v) => ValueModel::I64(*v),
            ParcelValue::Bool(v) => ValueModel::Bool(*v),
            ParcelValue::String(s) => ValueModel::Str(s@),
            ParcelValue::Bytes(b) => ValueModel::Bytes(b@),
            ParcelValue::Null => ValueModel::Null,
        }
    }
}

fn copy_bytes(b: &[u8]) -> (r: Vec<u8>)
    ensures
        r@ == b@,
{
    let mut v: Vec<u8> = Vec::new();
    let mut i: usize = 0;
    while i < b.len()
        invariant
            0 <= i <= b@.len(),
            v@ == b@.subrange(0, i as int),
        decreases b@.len() - i,
    {
        v.push(b[i]);
        i = i + 1;
        assert(v@ =~= b@.subrange(0, i as int));
    }
    assert(v@ =~= b@);
    v
}

impl ParcelValue {
    /// A copy of this value.
    pub fn duplicate(&self) -> (r: ParcelValue)
        ensures
            r@ == self@,
    {
        match self {
            ParcelValue::I32(v) => ParcelValue::I32(*v),
            ParcelValue::I64(v) => ParcelValue::I64(*v),
            ParcelValue::Bool(v) => ParcelValue::Bool(*v),
            ParcelValue::String(s) => ParcelValue::String(s.clone()),
            ParcelValue::Bytes(b) => ParcelValue::Bytes(copy_bytes(b.as_slice())),
            ParcelValue::Null => ParcelValue::Null,
        }
    }
}

/// The model of a parcel: its values and where the next read is.
pub struct ParcelModel {
    pub values: Seq<ValueModel>,
    pub position: nat,
}

/// What a read gives and leaves: the value at the position, which moves on; or nothing at the
/// end.
pub open spec fn spec_read(p: ParcelModel) -> (Option<ValueModel>, ParcelModel) {
    if p.position < p.values.len() {
        (Some(p.values[p.position as int]), ParcelModel { values: p.values, position: p.position + 1 })
    } else {
        (None, p)
    }
}

/// A parcel with `v` written at the end.
pub open spec fn spec_write(p: ParcelModel, v: ValueModel) -> ParcelModel {
    ParcelModel { values: p.values.push(v), position: p.position }
}

pub open spec fn as_i32(v: Option<ValueModel>) -> Option<i32> {
    match v { Some(ValueModel::I32(x)) => Some(x), _ => None }
}

pub open spec fn as_i64(v: Option<ValueModel>) -> Option<i64> {
    match v { Some(ValueModel::I64(x)) => Some(x), _ => None }
}

pub open spec fn as_bool(v: Option<ValueModel>) -> Option<bool> {
    match v { Some(ValueModel::Bool(x)) => Some(x), _ => None }
}

pub open spec fn as_str(v: Option<ValueModel>) -> Option<Seq<char>> {
    match v { Some(ValueModel::Str(x)) => Some(x), _ => None }
}

/// A parcel: values written in order and read back in order.
#[derive(Debug)]
pub struct Parcel {
    values: Vec<ParcelValue>,
    position: usize,
}

impl View for Parcel {
    type V = ParcelModel;

    closed spec fn view(&self) -> ParcelModel {
        ParcelModel { values: self.values@.map_values(|v: ParcelValue| v@), position: self.position as nat }
    }
}

/// Writing then reading: a value written to a parcel whose reads have reached its end is the
/// next value read back.
pub proof fn lemma_parcel_write_then_read(p: ParcelModel, v: ValueModel)
    requires
        p.position == p.values.len(),
    ensures
        spec_read(spec_write(p, v)).0 == Some(v),
        spec_read(spec_write(p, v)).1.position == p.position + 1,
{
}

/// Reading back in order: from the start, the `k`-th read of a parcel gives its `k`-th value.
pub proof fn lemma_parcel_reads_in_order(p: ParcelModel, k: nat)
    requires
        p.position + k < p.values.len(),
    ensures
        reads(p, k).values == p.values,
        reads(p, k).position == p.position + k,
        spec_read(reads(p, k)).0 == Some(p.values[p.position + k as int]),
    decreases k,
{
    if k > 0 {
        lemma_parcel_reads_in_order(p, (k - 1) as nat);
    }
}

/// The parcel after `k` reads.
pub open spec fn reads(p: ParcelModel, k: nat) -> ParcelModel
    decreases k,
{
    if k == 0 { p } else { spec_read(reads(p, (k - 1) as nat)).1 }
}

impl Parcel {
    pub fn new() -> (r: Parcel)
        ensures
            r@.values.len() == 0,
            r@.position == 0,
    {
        let r = Parcel { values: Vec::new(), position: 0 };
        assert(r@.values =~= Seq::<ValueModel>::empty());
        r
    }

    fn write(&mut self, v: ParcelValue)
        ensures
            final(self)@ == spec_write(old(self)@, v@),
    {
        self.values.push(v);
        assert(final(self)@.values =~= old(self)@.values.push(v@));
    }

    pub fn write_i32(&mut self, value: i32)
        ensures
            final(self)@ == spec_write(old(self)@, ValueModel::I32(value)),
    {
        self.write(ParcelValue::I32(value));
    }

    pub fn write_i64(&mut self, value: i64)
        ensures
            final(self)@ == spec_write(old(self)@, ValueModel::I64(value)),
    {
        self.write(ParcelValue::I64(value));
    }

    pub fn write_bool(&mut self, value: bool)
        ensures
            final(self)@ == spec_write(old(self)@, ValueModel::Bool(value)),
    {
        self.write(ParcelValue::Bool(value));
    }

    pub fn write_string(&mut self, value: &str)
        ensures
            final(self)@ == spec_write(old(self)@, ValueModel::Str(value@)),
    {
        self.write(ParcelValue::String(value.to_string()));
    }

    pub fn write_bytes(&mut self, value: &[u8])
        ensures
            final(self)@ == spec_write(old(self)@, ValueModel::Bytes(value@)),
    {
        self.write(ParcelValue::Bytes(copy_bytes(value)));
    }

    /// The next value, if any.
    pub fn read(&mut self) -> (r: Option<ParcelValue>)
        ensures
            match r {
                Some(v) => spec_read(old(self)@).0 == Some(v@),
                None => spec_read(old(self)@).0 is None,
            },
            final(self)@ == spec_read(old(self)@).1,
    {
        if self.position < self.values.len() {
            let v = self.values[self.position].duplicate();
            self.position = self.position + 1;
            Some(v)
        } else {
            None
        }
    }

    pub fn read_i32(&mut self) -> (r: Option<i32>)
        ensures
            r == as_i32(spec_read(old(self)@).0),
            final(self)@ == spec_read(old(self)@).1,
    {
        match self.read() {
            Some(ParcelValue::I32(v)) => Some(v),
            _ => None,
        }
    }

    pub fn read_i64(&mut self) -> (r: Option<i64>)
        ensures
            r == as_i64(spec_read(old(self)@).0),
            final(self)@ == spec_read(old(self)@).1,
    {
        match self.read() {
            Some(ParcelValue::I64(v)) => Some(v),
            _ => None,
        }
    }

    pub fn read_bool(&mut self) -> (r: Option<bool>)
        ensures
            r == as_bool(spec_read(old(self)@).0),
            final(self)@ == spec_read(old(self)@).1,
    {
        match self.read() {
            Some(ParcelValue::Bool(v)) => Some(v),
            _ => None,
        }
    }

    pub fn read_string(&mut self) -> (r: Option<String>)
        ensures
            match r {
                Some(s) => as_str(spec_read(old(self)@).0) == Some(s@),
                None => as_str(spec_read(old(self)@).0) is None,
            },
            final(self)@ == spec_read(old(self)@).1,
    {
        match self.read() {
            Some(ParcelValue::String(v)) => Some(v),
            _ => None,
        }
    }

    pub fn reset(&mut self)
        ensures
            final(self)@ == (ParcelModel { values: old(self)@.values, position: 0 }),
    {
        self.position = 0;
    }

    pub fn len(&self) -> (r: usize)
        ensures
            r == self@.values.len(),
    {
        self.values.len()
    }

    pub fn is_empty(&self) -> (r: bool)
        ensures
            r == (self@.values.len() == 0),
    {
        self.values.len() == 0
    }
}


/// Errors of IPC objects.
#[derive(Debug, Clone, Copy, PartialEq, Eq, Structural)]
pub enum IpcError {
    InvalidCapacity,
}

/// What answers a service's transactions: an empty mock, or one of the core services.
#[derive(Debug, Clone, Copy, PartialEq, Eq, Structural)]
pub enum ServiceBinding {
    Mock,
    Activity,
    Package,
    Window,
    Input,
}

/// Services registered by name.
#[derive(Debug)]
pub struct BinderRegistry {
    services: StrMap<ServiceBinding>,
}

impl BinderRegistry {
    pub closed spec fn wf(&self) -> bool {
        self.services.wf()
    }

    /// The services by name.
    pub closed spec fn spec_services(&self) -> Map<Seq<char>, ServiceBinding> {
        self.services.view()
    }

    pub fn new() -> (r: BinderRegistry)
        ensures
            r.wf(),
            r.spec_services() == Map::<Seq<char>, ServiceBinding>::empty(),
    {
        BinderRegistry { services: StrMap::new() }
    }

    /// Binds `name`, replacing any earlier binding.
    pub fn register(&mut self, name: &str, binding: ServiceBinding)
        requires
            old(self).wf(),
        ensures
            final(self).wf(),
            final(self).spec_services() == old(self).spec_services().insert(name@, binding),
    {
        self.services.insert(name.to_string(), binding);
    }

    pub fn get(&self, name: &str) -> (r: Option<ServiceBinding>)
        requires
            self.wf(),
        ensures
            r == (if self.spec_services().contains_key(name@) { Some(self.spec_services()[name@]) } else { None::<ServiceBinding> }),
    {
        match self.services.get(name) {
            Some(b) => Some(*b),
            None => None,
        }
    }

    /// Whether IPC is there: some service is registered, or the host has binderfs.
    pub fn is_available(&self, binderfs_present: bool) -> (r: bool)
        requires
            self.wf(),
        ensures
            r == (self.spec_services().dom().len() > 0 || binderfs_present),
    {
        self.services.len() > 0 || binderfs_present
    }

    /// Registers empty mocks for the core services.
    pub fn register_core_services(&mut self)
        requires
            old(self).wf(),
        ensures
            final(self).wf(),
            final(self).spec_services() == old(self).spec_services().insert("activity"@, ServiceBinding::Mock)
                .insert("package"@, ServiceBinding::Mock).insert("window"@, ServiceBinding::Mock)
                .insert("input"@, ServiceBinding::Mock),
    {
        self.register("activity", ServiceBinding::Mock);
        self.register("package", ServiceBinding::Mock);
        self.register("window", ServiceBinding::Mock);
        self.register("input", ServiceBinding::Mock);
    }

    /// Registers the core services over a shared state.
    pub fn register_core_services_with_state(&mut self)
        requires
            old(self).wf(),
        ensures
            final(self).wf(),
            final(self).spec_services() == old(self).spec_services().insert("activity"@, ServiceBinding::Activity)
                .insert("package"@, ServiceBinding::Package).insert("window"@, ServiceBinding::Window)
                .insert("input"@, ServiceBinding::Input),
    {
        self.register("activity", ServiceBinding::Activity);
        self.register("package", ServiceBinding::Package);
        self.register("window", ServiceBinding::Window);
        self.register("input", ServiceBinding::Input);
    }

    /// The registered names.
    pub fn services(&self) -> (r: Vec<String>)
        requires
            self.wf(),
        ensures
            forall|k: Seq<char>| self.spec_services().contains_key(k) <==> exists|i: int| 0 <= i < r@.len() && (#[trigger] r@[i])@ == k,
    {
        self.services.keys()
    }

    /// Sends a transaction to the named service: None when no service has that name; a mock
    /// answers with an empty parcel.
    pub fn transact(&self, name: &str, code: u32, data: Parcel, state: &mut CoreServiceState) -> (r: Option<Parcel>)
        requires
            self.wf(),
            old(state).wf(),
            old(state).activity_manager.spec_next_id() < u64::MAX,
        ensures
            final(state).wf(),
            !self.spec_services().contains_key(name@) ==> r is None && *final(state) == *old(state),
            self.spec_services().contains_key(name@) && self.spec_services()[name@] == ServiceBinding::Mock
                ==> (r matches Some(p) && p@.values.len() == 0) && *final(state) == *old(state),
    {
        match self.get(name) {
            None => None,
            Some(ServiceBinding::Mock) => Some(Parcel::new()),
            Some(ServiceBinding::Activity) => Some(activity_transact(state, code, data)),
            Some(ServiceBinding::Package) => Some(package_transact(state, code, data)),
            Some(ServiceBinding::Window) => Some(window_transact(state, code, data)),
            Some(ServiceBinding::Input) => Some(input_transact(state, code, data)),
        }
    }
}

/// A bounded queue shared between two ends.
pub struct SharedRingBuffer<T> {
    queue: MutexRingBuffer<T>,
}

impl<T> SharedRingBuffer<T> {
    pub closed spec fn wf(&self) -> bool {
        self.queue.wf()
    }

    pub closed spec fn view(&self) -> Seq<T> {
        self.queue.view()
    }

    pub closed spec fn spec_capacity(&self) -> nat {
        self.queue.spec_capacity()
    }

    /// An empty queue for `capacity` items; a capacity of zero is refused.
    pub fn new(capacity: usize) -> (r: Result<Self, IpcError>)
        ensures
            capacity == 0 ==> r == Err::<Self, IpcError>(IpcError::InvalidCapacity),
            capacity > 0 ==> (r matches Ok(b) && b.wf() && b.view().len() == 0 && b.spec_capacity() == capacity),
    {
        match MutexRingBuffer::new(capacity) {
            Ok(q) => Ok(SharedRingBuffer { queue: q }),
            Err(_) => Err(IpcError::InvalidCapacity),
        }
    }

    /// Appends `value` unless the queue is full; a full queue hands it back.
    pub fn push(&mut self, value: T) -> (r: Result<(), T>)
        requires
            old(self).wf(),
        ensures
            final(self).wf(),
            final(self).spec_capacity() == old(self).spec_capacity(),
            old(self).view().len() == old(self).spec_capacity() ==> r == Err::<(), T>(value) && final(self).view() == old(self).view(),
            old(self).view().len() < old(self).spec_capacity() ==> r is Ok && final(self).view() == old(self).view().push(value),
    {
        self.queue.push(value)
    }

    /// Takes the oldest item, if any.
    pub fn pop(&mut self) -> (r: Option<T>)
        requires
            old(self).wf(),
        ensures
            final(self).wf(),
            old(self).view().len() == 0 ==> r is None && final(self).view() == old(self).view(),
            old(self).view().len() > 0 ==> r == Some(old(self).view()[0]) && final(self).view() == old(self).view().drop_first(),
    {
        self.queue.pop()
    }

    pub fn capacity(&self) -> (r: usize)
        ensures
            r == self.spec_capacity(),
    {
        self.queue.capacity()
    }
}

} // verus!
