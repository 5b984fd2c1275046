//! The core services' state and how each answers a transaction.

use vstd::prelude::*;
use crate::ipc::{Parcel, ParcelModel, ValueModel, spec_read, as_i32, as_i64, as_bool, as_str};
use crate::ipc::transaction::{activity, package, window, input};
use crate::lifecycle::{InputDispatcher, InputEvent};
use crate::managers::{ActivityManager, ActivityRecord, ActivityState, PackageManager, PackageInfo, WindowGeometry,
    WindowManager};

verus! {

/// The managers behind the core services.
#[derive(Debug)]
pub struct CoreServiceState {
    pub package_manager: PackageManager,
    pub activity_manager: ActivityManager,
    pub window_manager: WindowManager,
    pub input_dispatcher: InputDispatcher,
}

impl CoreServiceState {
    pub open spec fn wf(&self) -> bool {
        self.package_manager.wf() && self.activity_manager.wf()
    }

    pub fn from_managers(package_manager: PackageManager, activity_manager: ActivityManager,
        window_manager: WindowManager, input_dispatcher: InputDispatcher) -> (r: CoreServiceState)
        ensures
            r.package_manager == package_manager,
            r.activity_manager == activity_manager,
            r.window_manager == window_manager,
            r.input_dispatcher == input_dispatcher,
    {
        CoreServiceState { package_manager, activity_manager, window_manager, input_dispatcher }
    }

    pub fn new() -> (r: CoreServiceState)
        ensures
            r.wf(),
            r.package_manager.packages() == Map::<Seq<char>, crate::managers::PackageInfo>::empty(),
            r.package_manager.applications() == Map::<Seq<char>, crate::managers::ApplicationInfo>::empty(),
            r.activity_manager.spec_stack().len() == 0,
            r.activity_manager.spec_next_id() == 1,
            r.window_manager.windows() == Map::<u64, crate::managers::WindowGeometry>::empty(),
            r.input_dispatcher.queued().len() == 0,
    {
        CoreServiceState {
            package_manager: PackageManager::new(),
            activity_manager: ActivityManager::new(),
            window_manager: WindowManager::new(),
            input_dispatcher: InputDispatcher::new(),
        }
    }
}

/// The code of an activity state in replies.
pub open spec fn spec_state_code(s: ActivityState) -> i32 {
    match s {
        ActivityState::Created => 0,
        ActivityState::Resumed => 1,
        ActivityState::Paused => 2,
        ActivityState::Destroyed => 3,
    }
}

fn activity_state_code(s: ActivityState) -> (r: i32)
    ensures
        r == spec_state_code(s),
{
    match s {
        ActivityState::Created => 0,
        ActivityState::Resumed => 1,
        ActivityState::Paused => 2,
        ActivityState::Destroyed => 3,
    }
}

/// The reply holding exactly these values.
pub open spec fn reply_of(r: Parcel, vs: Seq<ValueModel>) -> bool {
    r@.values == vs && r@.position == 0
}

/// The top activity as a reply.
pub open spec fn top_reply(a: ActivityRecord) -> Seq<ValueModel> {
    seq![ValueModel::Bool(true), ValueModel::I64(a.id as i64), ValueModel::Str(a.package@), ValueModel::Str(a.name@),
        ValueModel::I32(spec_state_code(a.state))]
}

/// Answers an activity transaction: start an activity (package and name), finish one (its id),
/// or describe the top one. Unknown codes and missing arguments get an empty reply.
pub fn activity_transact(state: &mut CoreServiceState, code: u32, data: Parcel) -> (reply: Parcel)
    requires
        old(state).wf(),
        old(state).activity_manager.spec_next_id() < u64::MAX,
    ensures
        final(state).wf(),
        final(state).package_manager == old(state).package_manager,
        final(state).window_manager == old(state).window_manager,
        final(state).input_dispatcher == old(state).input_dispatcher,
        code == activity::START ==> {
            let (v1, d1) = spec_read(data@);
            let (v2, _) = spec_read(d1);
            match (as_str(v1), as_str(v2)) {
                (Some(p), Some(n)) => {
                    &&& reply_of(reply, seq![ValueModel::I64(old(state).activity_manager.spec_next_id() as i64)])
                    &&& final(state).activity_manager.spec_stack().len() == old(state).activity_manager.spec_stack().len() + 1
                    &&& final(state).activity_manager.spec_stack().last().id == old(state).activity_manager.spec_next_id()
                    &&& final(state).activity_manager.spec_stack().last().package@ == p
                    &&& final(state).activity_manager.spec_stack().last().name@ == n
                },
                _ => reply_of(reply, Seq::empty()) && final(state).activity_manager == old(state).activity_manager,
            }
        },
        code == activity::FINISH ==> match as_i64(spec_read(data@).0) {
            Some(id) => reply_of(reply, seq![ValueModel::Bool(exists|i: int| 0 <= i < old(state).activity_manager.spec_stack().len()
                && (#[trigger] old(state).activity_manager.spec_stack()[i]).id == id as u64)]),
            None => reply_of(reply, Seq::empty()) && final(state).activity_manager == old(state).activity_manager,
        },
        code == activity::GET_TOP ==> final(state).activity_manager == old(state).activity_manager && if old(state).activity_manager.spec_stack().len() == 0 {
            reply_of(reply, seq![ValueModel::Bool(false)])
        } else {
            reply_of(reply, top_reply(old(state).activity_manager.spec_stack().last()))
        },
        !(code == activity::START || code == activity::FINISH || code == activity::GET_TOP)
            ==> reply_of(reply, Seq::empty()) && final(state).activity_manager == old(state).activity_manager,
{
    let mut data = data;
    let mut reply = Parcel::new();
    assert(reply@.values =~= Seq::<ValueModel>::empty());
    if code == activity::START {
        let package = data.read_string();
        let name = data.read_string();
        match (package, name) {
            (Some(p), Some(n)) => {
                let id = state.activity_manager.start(p.as_str(), n.as_str());
                reply.write_i64(id as i64);
                assert(reply@.values =~= seq![ValueModel::I64(id as i64)]);
            },
            _ => {},
        }
    } else if code == activity::FINISH {
        match data.read_i64() {
            Some(id) => {
                let done = state.activity_manager.finish(id as u64);
                reply.write_bool(done);
                assert(reply@.values =~= seq![ValueModel::Bool(done)]);
            },
            None => {},
        }
    } else if code == activity::GET_TOP {
        match state.activity_manager.top() {
            None => {
                reply.write_bool(false);
                assert(reply@.values =~= seq![ValueModel::Bool(false)]);
            },
            Some(a) => {
                reply.write_bool(true);
                reply.write_i64(a.id as i64);
                reply.write_string(a.package.as_str());
                reply.write_string(a.name.as_str());
                reply.write_i32(activity_state_code(a.state));
                assert(reply@.values =~= top_reply(*a));
            },
        }
    }
    reply
}


/// A package as a reply: found, name, version, permission count, permissions.
pub open spec fn package_reply(p: PackageInfo) -> Seq<ValueModel> {
    seq![ValueModel::Bool(true), ValueModel::Str(p.name@), ValueModel::I64(p.version_code as i64),
        ValueModel::I32(p.permissions@.len() as i32)]
        + p.permissions@.map_values(|s: String| ValueModel::Str(s@))
}

/// Answers a package transaction: describe the named package. Unknown codes and a missing
/// name get an empty reply.
pub fn package_transact(state: &mut CoreServiceState, code: u32, data: Parcel) -> (reply: Parcel)
    requires
        old(state).wf(),
    ensures
        *final(state) == *old(state),
        code != package::GET_PACKAGE ==> reply_of(reply, Seq::empty()),
        code == package::GET_PACKAGE ==> match as_str(spec_read(data@).0) {
            None => reply_of(reply, Seq::empty()),
            Some(name) => if old(state).package_manager.packages().contains_key(name) {
                reply_of(reply, package_reply(old(state).package_manager.packages()[name]))
            } else {
                reply_of(reply, seq![ValueModel::Bool(false)])
            },
        },
{
    let mut data = data;
    let mut reply = Parcel::new();
    assert(reply@.values =~= Seq::<ValueModel>::empty());
    if code != package::GET_PACKAGE {
        return reply;
    }
    let name = match data.read_string() {
        Some(n) => n,
        None => return reply,
    };
    match state.package_manager.get(name.as_str()) {
        None => {
            reply.write_bool(false);
            assert(reply@.values =~= seq![ValueModel::Bool(false)]);
        },
        Some(p) => {
            reply.write_bool(true);
            reply.write_string(p.name.as_str());
            reply.write_i64(p.version_code as i64);
            reply.write_i32(p.permissions.len() as i32);
            let ghost head = reply@.values;
            let mut i: usize = 0;
            while i < p.permissions.len()
                invariant
                    0 <= i <= p.permissions@.len(),
                    reply@.position == 0,
                    reply@.values == head + p.permissions@.subrange(0, i as int).map_values(|s: String| ValueModel::Str(s@)),
                decreases p.permissions@.len() - i,
            {
                reply.write_string(p.permissions[i].as_str());
                i = i + 1;
                assert(reply@.values =~= head + p.permissions@.subrange(0, i as int).map_values(|s: String| ValueModel::Str(s@)));
            }
            assert(p.permissions@.subrange(0, p.permissions@.len() as int) =~= p.permissions@);
            assert(reply@.values =~= package_reply(*p));
        },
    }
    reply
}

/// A non-negative size from a signed one: negatives become zero.
pub open spec fn clamp_size(v: i32) -> u32 {
    if v < 0 { 0 } else { v as u32 }
}

fn clamp(v: i32) -> (r: u32)
    ensures
        r == clamp_size(v),
{
    if v < 0 { 0 } else { v as u32 }
}

/// A window's geometry as a reply.
pub open spec fn geometry_reply(g: WindowGeometry) -> Seq<ValueModel> {
    seq![ValueModel::Bool(true), ValueModel::I32(g.x), ValueModel::I32(g.y), ValueModel::I32(g.width as i32),
        ValueModel::I32(g.height as i32), ValueModel::I32(g.dpi as i32)]
}

/// The parcel after `k` reads.
pub open spec fn after(p: ParcelModel, k: nat) -> ParcelModel {
    crate::ipc::reads(p, k)
}

/// Answers a window transaction: create a window (id, place, size, density; negative sizes
/// become zero), resize one, or describe one. Unknown codes and missing arguments get an empty
/// reply.
pub fn window_transact(state: &mut CoreServiceState, code: u32, data: Parcel) -> (reply: Parcel)
    ensures
        final(state).package_manager == old(state).package_manager,
        final(state).activity_manager == old(state).activity_manager,
        final(state).input_dispatcher == old(state).input_dispatcher,
        code == window::CREATE ==> match (as_i64(spec_read(data@).0), as_i32(spec_read(after(data@, 1)).0),
            as_i32(spec_read(after(data@, 2)).0), as_i32(spec_read(after(data@, 3)).0),
            as_i32(spec_read(after(data@, 4)).0), as_i32(spec_read(after(data@, 5)).0)) {
            (Some(id), Some(x), Some(y), Some(w), Some(h), Some(dpi)) => reply_of(reply, seq![ValueModel::Bool(true)])
                && final(state).window_manager.windows() == old(state).window_manager.windows().insert(id as u64,
                    WindowGeometry { x, y, width: clamp_size(w), height: clamp_size(h), dpi: clamp_size(dpi) }),
            _ => reply_of(reply, Seq::empty()) && final(state).window_manager == old(state).window_manager,
        },
        code == window::RESIZE ==> match (as_i64(spec_read(data@).0), as_i32(spec_read(after(data@, 1)).0),
            as_i32(spec_read(after(data@, 2)).0)) {
            (Some(id), Some(w), Some(h)) => reply_of(reply, seq![ValueModel::Bool(old(state).window_manager.windows().contains_key(id as u64))])
                && (old(state).window_manager.windows().contains_key(id as u64) ==> final(state).window_manager.windows()
                    == old(state).window_manager.windows().insert(id as u64, WindowGeometry {
                        width: clamp_size(w), height: clamp_size(h), ..old(state).window_manager.windows()[id as u64] }))
                && (!old(state).window_manager.windows().contains_key(id as u64)
                    ==> final(state).window_manager.windows() == old(state).window_manager.windows()),
            _ => reply_of(reply, Seq::empty()) && final(state).window_manager == old(state).window_manager,
        },
        code == window::GET_GEOMETRY ==> final(state).window_manager == old(state).window_manager
            && match as_i64(spec_read(data@).0) {
                None => reply_of(reply, Seq::empty()),
                Some(id) => if old(state).window_manager.windows().contains_key(id as u64) {
                    reply_of(reply, geometry_reply(old(state).window_manager.windows()[id as u64]))
                } else {
                    reply_of(reply, seq![ValueModel::Bool(false)])
                },
            },
        !(code == window::CREATE || code == window::RESIZE || code == window::GET_GEOMETRY)
            ==> reply_of(reply, Seq::empty()) && final(state).window_manager == old(state).window_manager,
{
    let mut data = data;
    let ghost d0 = data@;
    proof {
        reveal_with_fuel(crate::ipc::reads, 7);
    }
    let mut reply = Parcel::new();
    assert(reply@.values =~= Seq::<ValueModel>::empty());
    if code == window::CREATE {
        let id = data.read_i64();
        assert(data@ == after(d0, 1));
        let x = data.read_i32();
        assert(data@ == after(d0, 2));
        let y = data.read_i32();
        assert(data@ == after(d0, 3));
        let w = data.read_i32();
        assert(data@ == after(d0, 4));
        let h = data.read_i32();
        assert(data@ == after(d0, 5));
        let dpi = data.read_i32();
        match (id, x, y, w, h, dpi) {
            (Some(id), Some(x), Some(y), Some(w), Some(h), Some(dpi)) => {
                state.window_manager.create(id as u64, WindowGeometry { x, y, width: clamp(w), height: clamp(h), dpi: clamp(dpi) });
                reply.write_bool(true);
                assert(reply@.values =~= seq![ValueModel::Bool(true)]);
            },
            _ => {},
        }
    } else if code == window::RESIZE {
        let id = data.read_i64();
        assert(data@ == after(d0, 1));
        let w = data.read_i32();
        assert(data@ == after(d0, 2));
        let h = data.read_i32();
        match (id, w, h) {
            (Some(id), Some(w), Some(h)) => {
                let ok = state.window_manager.resize(id as u64, clamp(w), clamp(h)).is_ok();
                reply.write_bool(ok);
                assert(reply@.values =~= seq![ValueModel::Bool(ok)]);
            },
            _ => {},
        }
    } else if code == window::GET_GEOMETRY {
        match data.read_i64() {
            Some(id) => {
                match state.window_manager.geometry(id as u64) {
                    None => {
                        reply.write_bool(false);
                        assert(reply@.values =~= seq![ValueModel::Bool(false)]);
                    },
                    Some(g) => {
                        reply.write_bool(true);
                        reply.write_i32(g.x);
                        reply.write_i32(g.y);
                        reply.write_i32(g.width as i32);
                        reply.write_i32(g.height as i32);
                        reply.write_i32(g.dpi as i32);
                        assert(reply@.values =~= geometry_reply(g));
                    },
                }
            },
            None => {},
        }
    }
    reply
}

/// An event read from an injection: a key (code, pressed) or a touch (x, y, pressed), after
/// the kind.
pub open spec fn injected_event(d: ParcelModel, kind: i32) -> Option<InputEvent> {
    if kind == 0 {
        match (as_i32(spec_read(d).0), as_bool(spec_read(after(d, 1)).0)) {
            (Some(c), Some(p)) => Some(InputEvent::Key { code: c as u32, pressed: p }),
            _ => None,
        }
    } else if kind == 1 {
        match (as_i32(spec_read(d).0), as_i32(spec_read(after(d, 1)).0), as_bool(spec_read(after(d, 2)).0)) {
            (Some(x), Some(y), Some(p)) => Some(InputEvent::Touch { x, y, pressed: p }),
            _ => None,
        }
    } else {
        None
    }
}

/// An event as a reply.
pub open spec fn event_values(e: InputEvent) -> Seq<ValueModel> {
    match e {
        InputEvent::Key { code, pressed } => seq![ValueModel::I32(0), ValueModel::I32(code as i32), ValueModel::Bool(pressed)],
        InputEvent::Touch { x, y, pressed } => seq![ValueModel::I32(1), ValueModel::I32(x), ValueModel::I32(y), ValueModel::Bool(pressed)],
    }
}

/// Events as a reply, one after the other.
pub open spec fn events_values(es: Seq<InputEvent>) -> Seq<ValueModel>
    decreases es.len(),
{
    if es.len() == 0 { Seq::empty() } else { events_values(es.drop_last()) + event_values(es.last()) }
}

/// Answers an input transaction: inject an event, or drain the queued events (count, then
/// each). Unknown codes and malformed events get an empty reply.
pub fn input_transact(state: &mut CoreServiceState, code: u32, data: Parcel) -> (reply: Parcel)
    ensures
        final(state).package_manager == old(state).package_manager,
        final(state).activity_manager == old(state).activity_manager,
        final(state).window_manager == old(state).window_manager,
        code == input::INJECT ==> match as_i32(spec_read(data@).0) {
            None => reply_of(reply, Seq::empty()) && final(state).input_dispatcher.queued() == old(state).input_dispatcher.queued(),
            Some(kind) => match injected_event(after(data@, 1), kind) {
                None => reply_of(reply, Seq::empty()) && final(state).input_dispatcher.queued() == old(state).input_dispatcher.queued(),
                Some(e) => reply_of(reply, seq![ValueModel::Bool(true)])
                    && final(state).input_dispatcher.queued() == old(state).input_dispatcher.queued().push(e),
            },
        },
        code == input::DRAIN ==> reply_of(reply, seq![ValueModel::I32(old(state).input_dispatcher.queued().len() as i32)]
            + events_values(old(state).input_dispatcher.queued()))
            && final(state).input_dispatcher.queued().len() == 0,
        !(code == input::INJECT || code == input::DRAIN) ==> reply_of(reply, Seq::empty())
            && final(state).input_dispatcher.queued() == old(state).input_dispatcher.queued(),
{
    let mut data = data;
    let ghost d0 = data@;
    proof {
        reveal_with_fuel(crate::ipc::reads, 7);
    }
    let mut reply = Parcel::new();
    assert(reply@.values =~= Seq::<ValueModel>::empty());
    if code == input::INJECT {
        let kind = match data.read_i32() {
            Some(k) => k,
            None => return reply,
        };
        assert(data@ == after(d0, 1));
        let ghost d1 = data@;
        let event = if kind == 0 {
            let c = data.read_i32();
            assert(data@ == after(d1, 1));
            let p = data.read_bool();
            match (c, p) {
                (Some(c), Some(p)) => Some(InputEvent::Key { code: c as u32, pressed: p }),
                _ => None,
            }
        } else if kind == 1 {
            let x = data.read_i32();
            assert(data@ == after(d1, 1));
            let y = data.read_i32();
            assert(data@ == after(d1, 2));
            let p = data.read_bool();
            match (x, y, p) {
                (Some(x), Some(y), Some(p)) => Some(InputEvent::Touch { x, y, pressed: p }),
                _ => None,
            }
        } else {
            None
        };
        match event {
            Some(e) => {
                state.input_dispatcher.push(e);
                reply.write_bool(true);
                assert(reply@.values =~= seq![ValueModel::Bool(true)]);
            },
            None => {},
        }
    } else if code == input::DRAIN {
        let events = state.input_dispatcher.drain();
        reply.write_i32(events.len() as i32);
        let ghost head = reply@.values;
        let mut i: usize = 0;
        while i < events.len()
            invariant
                0 <= i <= events@.len(),
                reply@.position == 0,
                reply@.values == head + events_values(events@.subrange(0, i as int)),
            decreases events@.len() - i,
        {
            let ghost before = reply@.values;
            match events[i] {
                InputEvent::Key { code, pressed } => {
                    reply.write_i32(0);
                    reply.write_i32(code as i32);
                    reply.write_bool(pressed);
                },
                InputEvent::Touch { x, y, pressed } => {
                    reply.write_i32(1);
                    reply.write_i32(x);
                    reply.write_i32(y);
                    reply.write_bool(pressed);
                },
            }
            assert(reply@.values =~= before + event_values(events@[i as int]));
            assert(events@.subrange(0, i + 1).drop_last() =~= events@.subrange(0, i as int));
            i = i + 1;
        }
        assert(events@.subrange(0, events@.len() as int) =~= events@);
    }
    reply
}

} // verus!
