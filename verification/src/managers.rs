//! The package, activity and window managers.

use vstd::prelude::*;
use std::collections::HashMap;
use crate::dex::DexMetadata;
use crate::keyed::StrMap;
use crate::text::{parse_u64, spec_parse_u64, contains_seq, chars_of, chars_eq, find_from, first_occurrence, lemma_first_occurrence_bounds, lines, spec_lines, string_from_chars, str_eq,
    has_prefix, starts_with, occurs_at};

verus! {

/// An installed package: name, version and permissions (each listed once).
#[derive(Debug, Clone)]
pub struct PackageInfo {
    pub name: String,
    pub version_code: u64,
    pub permissions: Vec<String>,
}

/// An application: its package, launcher activity, primary DEX and native libraries.
#[derive(Debug, Clone)]
pub struct ApplicationInfo {
    pub package: String,
    pub launcher_activity: Option<String>,
    pub dex_path: Option<String>,
    pub dex: Option<DexMetadata>,
    pub native_libraries: Vec<String>,
}

#[derive(Debug, Clone, Copy, PartialEq, Eq, Structural)]
pub enum ManagerError {
    InvalidManifest,
    UnknownWindow,
}

/// The value of attribute `key` in `text`: what follows the first `key="` up to the next `"`
/// (or the end).
pub open spec fn spec_attribute(text: Seq<char>, key: Seq<char>) -> Option<Seq<char>> {
    let marker = key + seq!['=', '"'];
    match first_occurrence(text, marker, 0) {
        None => None,
        Some(p) => {
            let rest = text.subrange(p + marker.len(), text.len() as int);
            Some(rest.subrange(0, quote_end(rest, 0)))
        },
    }
}

/// The index of the first `"` at or after `i`, or the length.
pub open spec fn quote_end(s: Seq<char>, i: int) -> int
    decreases s.len() - i,
{
    if i < 0 || i >= s.len() { s.len() as int } else if s[i] == '"' { i } else { quote_end(s, i + 1) }
}

proof fn lemma_quote_end(s: Seq<char>, i: int)
    requires
        0 <= i <= s.len(),
    ensures
        i <= quote_end(s, i) <= s.len(),
    decreases s.len() - i,
{
    if i < s.len() && s[i] != '"' {
        lemma_quote_end(s, i + 1);
    }
}

/// Reads attribute `key` from `text`.
pub fn attribute(text: &[char], key: &[char]) -> (r: Option<Vec<char>>)
    ensures
        match spec_attribute(text@, key@) {
            Some(v) => r matches Some(x) && x@ == v,
            None => r is None,
        },
{
    let mut marker: Vec<char> = Vec::new();
    let mut i: usize = 0;
    while i < key.len()
        invariant
            0 <= i <= key@.len(),
            marker@ == key@.subrange(0, i as int),
        decreases key@.len() - i,
    {
        marker.push(key[i]);
        i = i + 1;
        assert(marker@ =~= key@.subrange(0, i as int));
    }
    marker.push('=');
    marker.push('"');
    assert(marker@ =~= key@ + seq!['=', '"']);
    let p = match find_from(text, marker.as_slice(), 0) {
        Some(p) => p,
        None => return None,
    };
    proof {
        lemma_first_occurrence_bounds(text@, marker@, 0);
    }
    let tn = text.len();
    assert(p + marker@.len() <= tn);
    let start = p + marker.len();
    let mut out: Vec<char> = Vec::new();
    let mut k = start;
    while k < text.len() && text[k] != '"'
        invariant
            start <= k <= text@.len(),
            out@ == text@.subrange(start as int, k as int),
            quote_end(text@.subrange(start as int, text@.len() as int), 0)
                == quote_end(text@.subrange(start as int, text@.len() as int), k - start),
        decreases text@.len() - k,
    {
        out.push(text[k]);
        k = k + 1;
        assert(out@ =~= text@.subrange(start as int, k as int));
    }
    proof {
        let rest = text@.subrange(start as int, text@.len() as int);
        assert(rest.subrange(0, k - start) =~= out@);
    }
    Some(out)
}


/// The package manager: installed packages and applications by name.
#[derive(Debug)]
pub struct PackageManager {
    packages: StrMap<PackageInfo>,
    applications: StrMap<ApplicationInfo>,
}

impl PackageManager {
    pub closed spec fn wf(&self) -> bool {
        self.packages.wf() && self.applications.wf()
    }

    pub closed spec fn packages(&self) -> Map<Seq<char>, PackageInfo> {
        self.packages.view()
    }

    pub closed spec fn applications(&self) -> Map<Seq<char>, ApplicationInfo> {
        self.applications.view()
    }

    pub fn new() -> (r: PackageManager)
        ensures
            r.wf(),
            r.packages() == Map::<Seq<char>, PackageInfo>::empty(),
            r.applications() == Map::<Seq<char>, ApplicationInfo>::empty(),
    {
        PackageManager { packages: StrMap::new(), applications: StrMap::new() }
    }

    /// Installs (or replaces) a package under its name.
    pub fn install(&mut self, info: PackageInfo)
        requires
            old(self).wf(),
        ensures
            final(self).wf(),
            final(self).packages() == old(self).packages().insert(info.name@, info),
            final(self).applications() == old(self).applications(),
    {
        let key = info.name.clone();
        self.packages.insert(key, info);
    }

    /// Installs an application, adding a version-1 package without permissions when its
    /// package is not installed.
    pub fn install_application(&mut self, application: ApplicationInfo)
        requires
            old(self).wf(),
        ensures
            final(self).wf(),
            final(self).applications() == old(self).applications().insert(application.package@, application),
            old(self).packages().contains_key(application.package@) ==> final(self).packages() == old(self).packages(),
            !old(self).packages().contains_key(application.package@) ==> final(self).packages().dom()
                == old(self).packages().dom().insert(application.package@)
                && final(self).packages()[application.package@].version_code == 1
                && final(self).packages()[application.package@].permissions@.len() == 0
                && final(self).packages()[application.package@].name@ == application.package@,
    {
        if !self.packages.contains_key(application.package.as_str()) {
            let name = application.package.clone();
            let info = PackageInfo { name: application.package.clone(), version_code: 1, permissions: Vec::new() };
            self.packages.insert(name, info);
        }
        let key = application.package.clone();
        self.applications.insert(key, application);
    }

    pub fn application(&self, package: &str) -> (r: Option<&ApplicationInfo>)
        requires
            self.wf(),
        ensures
            match r {
                Some(a) => self.applications().contains_key(package@) && *a == self.applications()[package@],
                None => !self.applications().contains_key(package@),
            },
    {
        self.applications.get(package)
    }

    pub fn get(&self, name: &str) -> (r: Option<&PackageInfo>)
        requires
            self.wf(),
        ensures
            match r {
                Some(p) => self.packages().contains_key(name@) && *p == self.packages()[name@],
                None => !self.packages().contains_key(name@),
            },
    {
        self.packages.get(name)
    }

    /// Whether `package` is installed and holds `permission`.
    pub fn has_permission(&self, package: &str, permission: &str) -> (r: bool)
        requires
            self.wf(),
        ensures
            r == (self.packages().contains_key(package@) && exists|i: int| 0 <= i < self.packages()[package@].permissions@.len()
                && (#[trigger] self.packages()[package@].permissions@[i])@ == permission@),
    {
        match self.packages.get(package) {
            None => false,
            Some(p) => {
                let mut i: usize = 0;
                while i < p.permissions.len()
                    invariant
                        0 <= i <= p.permissions@.len(),
                        self.packages().contains_key(package@),
                        *p == self.packages()[package@],
                        forall|j: int| 0 <= j < i ==> (#[trigger] p.permissions@[j])@ != permission@,
                    decreases p.permissions@.len() - i,
                {
                    if str_eq(p.permissions[i].as_str(), permission) {
                        assert((p.permissions@[i as int])@ == permission@);
                        return true;
                    }
                    i = i + 1;
                }
                false
            },
        }
    }

    /// The number of installed packages.
    pub fn len(&self) -> (r: usize)
        requires
            self.wf(),
        ensures
            r == self.packages().dom().len(),
    {
        self.packages.len()
    }
}

/// A package as plain values.
pub struct PackageView {
    pub name: Seq<char>,
    pub version_code: u64,
    pub permissions: Seq<Seq<char>>,
}

impl View for PackageInfo {
    type V = PackageView;

    open spec fn view(&self) -> PackageView {
        PackageView {
            name: self.name@,
            version_code: self.version_code,
            permissions: self.permissions@.map_values(|s: String| s@),
        }
    }
}

/// A name that counts as a permission: it mentions "permission" or starts with "android.".
pub open spec fn is_permission_name(n: Seq<char>) -> bool {
    contains_seq(n, "permission"@) || has_prefix(n, "android."@)
}

/// The distinct permissions named on lines `0..k`, in order of first appearance.
pub open spec fn manifest_permissions(ls: Seq<Seq<char>>, k: int) -> Seq<Seq<char>>
    decreases k,
{
    if k <= 0 || k > ls.len() {
        Seq::empty()
    } else {
        let prev = manifest_permissions(ls, k - 1);
        match spec_attribute(ls[k - 1], "name"@) {
            Some(n) => if is_permission_name(n) && !prev.contains(n) { prev.push(n) } else { prev },
            None => prev,
        }
    }
}

/// What a text manifest declares: package name, version (1 when missing or malformed) and
/// permissions; None without a package.
pub open spec fn spec_manifest(text: Seq<char>) -> Option<PackageView> {
    match spec_attribute(text, "package"@) {
        None => None,
        Some(name) => Some(PackageView {
            name,
            version_code: match spec_attribute(text, "versionCode"@) {
                Some(v) => match spec_parse_u64(v) {
                    Some(n) => n,
                    None => 1,
                },
                None => 1,
            },
            permissions: manifest_permissions(spec_lines(text), spec_lines(text).len() as int),
        }),
    }
}

fn clone_strings(v: &Vec<String>) -> (r: Vec<String>)
    ensures
        r@.map_values(|s: String| s@) == v@.map_values(|s: String| s@),
{
    let mut out: Vec<String> = Vec::new();
    let mut i: usize = 0;
    while i < v.len()
        invariant
            0 <= i <= v@.len(),
            out@.len() == i,
            forall|j: int| 0 <= j < i ==> (#[trigger] out@[j])@ == v@[j]@,
        decreases v@.len() - i,
    {
        out.push(v[i].clone());
        i = i + 1;
    }
    assert(out@.map_values(|s: String| s@) =~= v@.map_values(|s: String| s@));
    out
}

impl PackageManager {
    /// Reads a text manifest, installs the package it declares and returns it.
    pub fn parse_manifest(&mut self, manifest: &str) -> (r: Result<PackageInfo, ManagerError>)
        requires
            old(self).wf(),
        ensures
            final(self).wf(),
            match spec_manifest(manifest@) {
                None => r == Err::<PackageInfo, ManagerError>(ManagerError::InvalidManifest) && *final(self) == *old(self),
                Some(p) => r matches Ok(info) && info@ == p && final(self).packages().contains_key(p.name)
                    && final(self).packages()[p.name]@ == p
                    && final(self).packages().dom() == old(self).packages().dom().insert(p.name),
            },
    {
        let text = chars_of(manifest);
        let package_key = chars_of("package");
        let name = match attribute(text.as_slice(), package_key.as_slice()) {
            Some(n) => n,
            None => return Err(ManagerError::InvalidManifest),
        };
        let version_key = chars_of("versionCode");
        let version_code = match attribute(text.as_slice(), version_key.as_slice()) {
            Some(v) => match parse_u64(v.as_slice()) {
                Some(n) => n,
                None => 1,
            },
            None => 1,
        };
        let ls = lines(text.as_slice());
        let name_key = chars_of("name");
        let perm = chars_of("permission");
        let android = chars_of("android.");
        let mut permissions: Vec<String> = Vec::new();
        let ghost sl = spec_lines(manifest@);
        let mut i: usize = 0;
        while i < ls.len()
            invariant
                0 <= i <= ls@.len(),
                ls@.len() == sl.len(),
                sl == spec_lines(manifest@),
                forall|j: int| 0 <= j < ls@.len() ==> #[trigger] ls@[j]@ == sl[j],
                name_key@ == "name"@,
                perm@ == "permission"@,
                android@ == "android."@,
                permissions@.map_values(|s: String| s@) == manifest_permissions(sl, i as int),
            decreases ls@.len() - i,
        {
            let ghost prev = manifest_permissions(sl, i as int);
            match attribute(ls[i].as_slice(), name_key.as_slice()) {
                Some(n) => {
                    let mentions = find_from(n.as_slice(), perm.as_slice(), 0).is_some();
                    let prefixed = starts_with(n.as_slice(), android.as_slice());
                    if mentions || prefixed {
                        let s = string_from_chars(n.as_slice());
                        let mut seen = false;
                        let mut k: usize = 0;
                        while k < permissions.len()
                            invariant
                                0 <= k <= permissions@.len(),
                                permissions@.map_values(|s: String| s@) == prev,
                                s@ == n@,
                                seen == exists|j: int| 0 <= j < k && prev[j] == n@,
                            decreases permissions@.len() - k,
                        {
                            assert(prev[k as int] == permissions@[k as int]@);
                            if str_eq(permissions[k].as_str(), s.as_str()) {
                                seen = true;
                            }
                            k = k + 1;
                        }
                        proof {
                            if prev.contains(n@) {
                                let j = choose|j: int| 0 <= j < prev.len() && prev[j] == n@;
                            }
                        }
                        if !seen {
                            permissions.push(s);
                        }
                    }
                },
                None => {},
            }
            i = i + 1;
            proof {
                assert(permissions@.map_values(|s: String| s@) =~= manifest_permissions(sl, i as int));
            }
        }
        let perms_copy = clone_strings(&permissions);
        let info = PackageInfo { name: string_from_chars(name.as_slice()), version_code, permissions };
        let stored = PackageInfo { name: string_from_chars(name.as_slice()), version_code, permissions: perms_copy };
        self.install(stored);
        Ok(info)
    }
}

/// Where an activity is in its life.
#[derive(Debug, Clone, Copy, PartialEq, Eq, Structural)]
pub enum ActivityState {
    Created,
    Resumed,
    Paused,
    Destroyed,
}

/// An activity on the stack.
#[derive(Debug, Clone)]
pub struct ActivityRecord {
    pub id: u64,
    pub package: String,
    pub name: String,
    pub state: ActivityState,
}

/// The activity stack: the top activity is resumed, every other one paused.
#[derive(Debug)]
pub struct ActivityManager {
    next_id: u64,
    stack: Vec<ActivityRecord>,
}

/// The stack's shape: ids increase upwards and are below the next id; the top is resumed and
/// the rest paused.
pub open spec fn stack_wf(stack: Seq<ActivityRecord>, next_id: u64) -> bool {
    &&& next_id >= 1
    &&& forall|i: int, j: int| 0 <= i < j < stack.len() ==> stack[i].id < stack[j].id
    &&& forall|i: int| 0 <= i < stack.len() ==> 1 <= #[trigger] stack[i].id < next_id
    &&& forall|i: int| 0 <= i < stack.len() ==> #[trigger] stack[i].state == if i == stack.len() - 1 {
        ActivityState::Resumed
    } else {
        ActivityState::Paused
    }
}

/// `stack` with its top record given `state`.
pub open spec fn with_top_state(stack: Seq<ActivityRecord>, state: ActivityState) -> Seq<ActivityRecord> {
    if stack.len() == 0 {
        stack
    } else {
        let t = stack.last();
        stack.update(stack.len() - 1, ActivityRecord { id: t.id, package: t.package, name: t.name, state })
    }
}

impl ActivityManager {
    pub closed spec fn wf(&self) -> bool {
        stack_wf(self.stack@, self.next_id)
    }

    /// The activities, bottom first.
    pub closed spec fn spec_stack(&self) -> Seq<ActivityRecord> {
        self.stack@
    }

    pub closed spec fn spec_next_id(&self) -> u64 {
        self.next_id
    }

    pub fn new() -> (r: ActivityManager)
        ensures
            r.wf(),
            r.spec_stack().len() == 0,
            r.spec_next_id() == 1,
    {
        ActivityManager { next_id: 1, stack: Vec::new() }
    }

    /// Starts an activity on top of the stack, pausing the previous top; returns its id.
    pub fn start(&mut self, package: &str, name: &str) -> (r: u64)
        requires
            old(self).wf(),
            old(self).spec_next_id() < u64::MAX,
        ensures
            final(self).wf(),
            r == old(self).spec_next_id(),
            final(self).spec_next_id() == r + 1,
            final(self).spec_stack().len() == old(self).spec_stack().len() + 1,
            final(self).spec_stack().last().id == r,
            final(self).spec_stack().last().package@ == package@,
            final(self).spec_stack().last().name@ == name@,
            forall|i: int| 0 <= i < old(self).spec_stack().len() ==> (#[trigger] final(self).spec_stack()[i]).id
                == old(self).spec_stack()[i].id,
            final(self).spec_stack() == with_top_state(old(self).spec_stack(), ActivityState::Paused)
                .push(final(self).spec_stack().last()),
            final(self).spec_stack().last().state == ActivityState::Resumed,
    {
        let n = self.stack.len();
        if n > 0 {
            let mut top = self.stack.pop().unwrap();
            if top.state == ActivityState::Resumed {
                top.state = ActivityState::Paused;
            }
            self.stack.push(top);
        }
        let id = self.next_id;
        self.next_id = self.next_id + 1;
        self.stack.push(ActivityRecord { id, package: package.to_string(), name: name.to_string(), state: ActivityState::Resumed });
        proof {
            let s = self.stack@;
            assert(s =~= with_top_state(old(self).stack@, ActivityState::Paused).push(s.last()));
            assert forall|i: int| 0 <= i < s.len() implies #[trigger] s[i].state == if i == s.len() - 1 {
                ActivityState::Resumed
            } else {
                ActivityState::Paused
            } by {
                if i < n - 1 {
                    assert(s[i] == old(self).stack@[i]);
                }
            }
            assert forall|i: int| 0 <= i < s.len() implies 1 <= #[trigger] s[i].id < self.next_id by {
                if i < n {
                    assert(s[i].id == old(self).stack@[i].id);
                }
            }
            assert forall|i: int, j: int| 0 <= i < j < s.len() implies s[i].id < s[j].id by {
                if j < n {
                    assert(s[i].id == old(self).stack@[i].id);
                    assert(s[j].id == old(self).stack@[j].id);
                } else if i < n {
                    assert(s[i].id == old(self).stack@[i].id);
                }
            }
        }
        id
    }

    /// Finishes the activity `id`, resuming the new top; false when no such activity.
    pub fn finish(&mut self, id: u64) -> (r: bool)
        requires
            old(self).wf(),
        ensures
            final(self).wf(),
            r == (exists|i: int| 0 <= i < old(self).spec_stack().len() && (#[trigger] old(self).spec_stack()[i]).id == id),
            !r ==> *final(self) == *old(self),
            r ==> final(self).spec_stack().len() == old(self).spec_stack().len() - 1,
            forall|i: int| 0 <= i < final(self).spec_stack().len() ==> (#[trigger] final(self).spec_stack()[i]).id != id,
            final(self).spec_next_id() == old(self).spec_next_id(),
            r ==> exists|k: int| 0 <= k < old(self).spec_stack().len() && (#[trigger] old(self).spec_stack()[k]).id == id
                && final(self).spec_stack() == with_top_state(old(self).spec_stack().remove(k), ActivityState::Resumed),
    {
        let mut index: usize = 0;
        while index < self.stack.len()
            invariant
                0 <= index <= self.stack@.len(),
                forall|j: int| 0 <= j < index ==> (#[trigger] self.stack@[j]).id != id,
            ensures
                0 <= index <= self.stack@.len(),
                forall|j: int| 0 <= j < index ==> (#[trigger] self.stack@[j]).id != id,
                index < self.stack@.len() ==> self.stack@[index as int].id == id,
            decreases self.stack@.len() - index,
        {
            if self.stack[index].id == id {
                break;
            }
            index = index + 1;
        }
        if index == self.stack.len() {
            return false;
        }
        let ghost before = self.stack@;
        let _removed = self.stack.remove(index);
        let m = self.stack.len();
        if m > 0 {
            let mut top = self.stack.pop().unwrap();
            top.state = ActivityState::Resumed;
            self.stack.push(top);
        }
        proof {
            let s = self.stack@;
            assert(s =~= with_top_state(before.remove(index as int), ActivityState::Resumed));
            assert(before[index as int].id == id);
            assert forall|i: int| 0 <= i < s.len() implies s[i].id == (if i < index { before[i].id } else { before[i + 1].id }) by {
                if i < m - 1 || m == 0 {
                } else {
                }
            }
            assert forall|i: int| 0 <= i < s.len() implies #[trigger] s[i].state == if i == s.len() - 1 {
                ActivityState::Resumed
            } else {
                ActivityState::Paused
            } by {
                if i < s.len() - 1 {
                    if i < index {
                        assert(s[i] == before[i]);
                    } else {
                        assert(s[i] == before[i + 1]);
                    }
                }
            }
            assert forall|i: int, j: int| 0 <= i < j < s.len() implies s[i].id < s[j].id by {
                assert(s[i].id == (if i < index { before[i].id } else { before[i + 1].id }));
                assert(s[j].id == (if j < index { before[j].id } else { before[j + 1].id }));
            }
            assert(before[index as int].id == id);
            assert forall|i: int| 0 <= i < s.len() implies (#[trigger] s[i]).id != id by {
                assert(s[i].id == (if i < index { before[i].id } else { before[i + 1].id }));
                if i < index {
                    assert(before[i].id < before[index as int].id);
                } else {
                    assert(before[index as int].id < before[i + 1].id);
                }
            }
        }
        true
    }

    /// The resumed activity.
    pub fn top(&self) -> (r: Option<&ActivityRecord>)
        requires
            self.wf(),
        ensures
            self.spec_stack().len() == 0 ==> r is None,
            self.spec_stack().len() > 0 ==> (r matches Some(a) && *a == self.spec_stack().last()
                && a.state == ActivityState::Resumed),
    {
        let n = self.stack.len();
        if n == 0 {
            None
        } else {
            Some(&self.stack[n - 1])
        }
    }

    /// The activities, bottom first.
    pub fn stack(&self) -> (r: &[ActivityRecord])
        ensures
            r@ == self.spec_stack(),
    {
        self.stack.as_slice()
    }
}

/// The stack has at most one resumed activity, and it is the top one.
pub proof fn lemma_single_resumed(m: ActivityManager, i: int)
    requires
        m.wf(),
        0 <= i < m.spec_stack().len(),
        m.spec_stack()[i].state == ActivityState::Resumed,
    ensures
        i == m.spec_stack().len() - 1,
{
    assert(stack_wf(m.spec_stack(), m.spec_next_id()));
    assert(m.spec_stack()[i].state == if i == m.spec_stack().len() - 1 {
        ActivityState::Resumed
    } else {
        ActivityState::Paused
    });
}

/// A window's place, size and density.
#[derive(Debug, Clone, Copy, PartialEq, Eq, Structural)]
pub struct WindowGeometry {
    pub x: i32,
    pub y: i32,
    pub width: u32,
    pub height: u32,
    pub dpi: u32,
}

/// The window manager: geometry by window id.
#[derive(Debug)]
pub struct WindowManager {
    windows: HashMap<u64, WindowGeometry>,
}

impl WindowManager {
    pub closed spec fn windows(&self) -> Map<u64, WindowGeometry> {
        self.windows@
    }

    pub fn new() -> (r: WindowManager)
        ensures
            r.windows() == Map::<u64, WindowGeometry>::empty(),
    {
        WindowManager { windows: HashMap::new() }
    }

    /// Creates (or replaces) window `id`.
    pub fn create(&mut self, id: u64, geometry: WindowGeometry)
        ensures
            final(self).windows() == old(self).windows().insert(id, geometry),
    {
        self.windows.insert(id, geometry);
    }

    /// Resizes window `id`, keeping its place and density.
    pub fn resize(&mut self, id: u64, width: u32, height: u32) -> (r: Result<(), ManagerError>)
        ensures
            !old(self).windows().contains_key(id) ==> r == Err::<(), ManagerError>(ManagerError::UnknownWindow)
                && final(self).windows() == old(self).windows(),
            old(self).windows().contains_key(id) ==> r is Ok && final(self).windows() == old(self).windows().insert(id,
                WindowGeometry { width, height, ..old(self).windows()[id] }),
    {
        let current = match self.windows.get(&id) {
            Some(g) => *g,
            None => return Err(ManagerError::UnknownWindow),
        };
        self.windows.insert(id, WindowGeometry { width, height, ..current });
        Ok(())
    }

    pub fn geometry(&self, id: u64) -> (r: Option<WindowGeometry>)
        ensures
            r == (if self.windows().contains_key(id) { Some(self.windows()[id]) } else { None::<WindowGeometry> }),
    {
        match self.windows.get(&id) {
            Some(g) => Some(*g),
            None => None,
        }
    }

    pub fn len(&self) -> (r: usize)
        ensures
            r == self.windows().len(),
    {
        self.windows.len()
    }
}

proof fn lemma_first_occurrence_exists(s: Seq<char>, p: Seq<char>, from: int)
    requires
        0 <= from,
    ensures
        first_occurrence(s, p, from) is Some <==> exists|i: int| from <= i && #[trigger] occurs_at(s, p, i),
    decreases s.len() + 1 - from,
{
    if from + p.len() <= s.len() && !occurs_at(s, p, from) {
        lemma_first_occurrence_exists(s, p, from + 1);
        assert forall|i: int| from <= i && #[trigger] occurs_at(s, p, i) implies from + 1 <= i by {}
    } else if from + p.len() > s.len() {
        assert forall|i: int| from <= i && #[trigger] occurs_at(s, p, i) implies false by {}
    }
}

/// A manifest name counts as a permission exactly when the text "permission" occurs in it,
/// or it starts with "android.".
pub proof fn lemma_permission_names(n: Seq<char>)
    ensures
        is_permission_name(n) <==> ((exists|i: int| 0 <= i && i + 10 <= n.len() && #[trigger] n.subrange(i, i + 10) == "permission"@)
            || (n.len() >= 8 && n.subrange(0, 8) == "android."@)),
{
    reveal_strlit("permission");
    reveal_strlit("android.");
    lemma_first_occurrence_exists(n, "permission"@, 0);
    if exists|i: int| 0 <= i && i + 10 <= n.len() && #[trigger] n.subrange(i, i + 10) == "permission"@ {
        let i = choose|i: int| 0 <= i && i + 10 <= n.len() && #[trigger] n.subrange(i, i + 10) == "permission"@;
        assert(occurs_at(n, "permission"@, i));
    }
}

/// Every line whose `name` attribute counts as a permission contributes that name to the
/// permissions, and every permission listed comes from such a line.
pub proof fn lemma_manifest_permissions_cover(ls: Seq<Seq<char>>, k: int)
    requires
        0 <= k <= ls.len(),
    ensures
        forall|j: int| 0 <= j < k ==> (#[trigger] spec_attribute(ls[j], "name"@) matches Some(n)
            ==> (is_permission_name(n) ==> manifest_permissions(ls, k).contains(n))),
        forall|q: int| 0 <= q < manifest_permissions(ls, k).len() ==> is_permission_name(#[trigger] manifest_permissions(ls, k)[q])
            && exists|j: int| 0 <= j < k && #[trigger] spec_attribute(ls[j], "name"@) == Some(manifest_permissions(ls, k)[q]),
    decreases k,
{
    if k > 0 {
        lemma_manifest_permissions_cover(ls, k - 1);
        let prev = manifest_permissions(ls, k - 1);
        let cur = manifest_permissions(ls, k);
        assert forall|j: int| 0 <= j < k && (#[trigger] spec_attribute(ls[j], "name"@)) is Some
            && is_permission_name(spec_attribute(ls[j], "name"@)->Some_0)
            implies cur.contains(spec_attribute(ls[j], "name"@)->Some_0) by {
            let n = spec_attribute(ls[j], "name"@)->Some_0;
            if j < k - 1 {
                assert(prev.contains(n));
                let w = choose|w: int| 0 <= w < prev.len() && prev[w] == n;
                assert(cur[w] == n);
            } else {
                if prev.contains(n) {
                    let w = choose|w: int| 0 <= w < prev.len() && prev[w] == n;
                    assert(cur[w] == n);
                } else {
                    assert(cur[prev.len() as int] == n);
                }
            }
        }
        assert forall|q: int| 0 <= q < cur.len() implies is_permission_name(#[trigger] cur[q])
            && exists|j: int| 0 <= j < k && #[trigger] spec_attribute(ls[j], "name"@) == Some(cur[q]) by {
            if q < prev.len() {
                assert(cur[q] == prev[q]);
                let j = choose|j: int| 0 <= j < k - 1 && #[trigger] spec_attribute(ls[j], "name"@) == Some(prev[q]);
                assert(spec_attribute(ls[j], "name"@) == Some(cur[q]));
            } else {
                assert(spec_attribute(ls[k - 1], "name"@) == Some(cur[q]));
            }
        }
    }
}

/// The permissions read from a manifest name each permission once, as a set does.
pub proof fn lemma_manifest_permissions_distinct(ls: Seq<Seq<char>>, k: int)
    ensures
        forall|a: int, b: int| 0 <= a < b < manifest_permissions(ls, k).len()
            ==> manifest_permissions(ls, k)[a] != manifest_permissions(ls, k)[b],
    decreases k,
{
    if 0 < k <= ls.len() {
        lemma_manifest_permissions_distinct(ls, k - 1);
        let prev = manifest_permissions(ls, k - 1);
        let cur = manifest_permissions(ls, k);
        assert forall|a: int, b: int| 0 <= a < b < cur.len() implies cur[a] != cur[b] by {
            if b < prev.len() {
                assert(cur[a] == prev[a] && cur[b] == prev[b]);
            } else {
                assert(cur[a] == prev[a]);
                if cur[a] == cur[b] {
                    assert(prev.contains(cur[b]));
                }
            }
        }
    }
}

proof fn lemma_first_occurrence_at(s: Seq<char>, p: Seq<char>, from: int, k: int)
    requires
        0 <= from <= k,
        occurs_at(s, p, k),
        forall|i: int| from <= i < k ==> !#[trigger] occurs_at(s, p, i),
    ensures
        first_occurrence(s, p, from) == Some(k),
    decreases k - from,
{
    if from < k {
        assert(!occurs_at(s, p, from));
        lemma_first_occurrence_at(s, p, from + 1, k);
    }
}

proof fn lemma_quote_end_at(s: Seq<char>, i: int, q: int)
    requires
        0 <= i <= q <= s.len(),
        forall|j: int| i <= j < q ==> s[j] != '"',
        q == s.len() || s[q] == '"',
    ensures
        quote_end(s, i) == q,
    decreases q - i,
{
    if i < q {
        lemma_quote_end_at(s, i + 1, q);
    }
}

/// Whether `marker` occurs nowhere in `text` before position `k`.
pub open spec fn absent_before(text: Seq<char>, marker: Seq<char>, k: int) -> bool {
    forall|i: int| 0 <= i < k ==> !#[trigger] occurs_at(text, marker, i)
}

/// An attribute reads as the text between the first `key="` and the quote that closes it:
/// for `pre key="value" post`, where `key="` does not occur earlier and the value holds no
/// quote, the value of `key` is exactly `value`.
pub proof fn lemma_attribute_value(pre: Seq<char>, key: Seq<char>, value: Seq<char>, post: Seq<char>)
    requires
        absent_before(pre + key + seq!['=', '"'] + value + seq!['"'] + post, key + seq!['=', '"'], pre.len() as int),
        forall|j: int| 0 <= j < value.len() ==> value[j] != '"',
    ensures
        spec_attribute(pre + key + seq!['=', '"'] + value + seq!['"'] + post, key) == Some(value),
{
    let marker = key + seq!['=', '"'];
    let text = pre + key + seq!['=', '"'] + value + seq!['"'] + post;
    assert(text.subrange(pre.len() as int, (pre.len() + marker.len()) as int) =~= marker);
    lemma_first_occurrence_at(text, marker, 0, pre.len() as int);
    let rest = text.subrange((pre.len() + marker.len()) as int, text.len() as int);
    assert(rest =~= value + seq!['"'] + post);
    lemma_quote_end_at(rest, 0, value.len() as int);
    assert(rest.subrange(0, value.len() as int) =~= value);
}

} // verus!
