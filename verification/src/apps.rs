use vstd::prelude::*;

use crate::devmap::DeviceMap;

verus! {

/// What the launcher reads of one installed application: its bundle
/// identifier, its display name if it carries one, and whether its
/// entitlements allow a debugger to attach.
pub struct AppInfo {
    pub bundle_id: String,
    pub name: Option<String>,
    pub get_task_allow: bool,
}

/// The name an application is listed under: its display name, or its bundle
/// identifier when it has none.
pub open spec fn display_name(a: AppInfo) -> Seq<char> {
    match a.name {
        Some(n) => n@,
        None => a.bundle_id@,
    }
}

/// The listing of debuggable applications: each app whose entitlements allow
/// attaching, keyed by its name, a later app taking a shared name over.
pub open spec fn apps_map(s: Seq<AppInfo>) -> Map<Seq<char>, Seq<char>>
    decreases s.len(),
{
    if s.len() == 0 {
        Map::empty()
    } else {
        let m = apps_map(s.drop_last());
        let a = s.last();
        if a.get_task_allow {
            m.insert(display_name(a), a.bundle_id@)
        } else {
            m
        }
    }
}

/// Select the applications a debugger may attach to, listed by name. Apps
/// without the needed entitlement are left out; of two apps under one name,
/// the later one is kept.
pub fn select_debuggable_apps(apps: &Vec<AppInfo>) -> (r: DeviceMap<String>)
    ensures
        r.wf(),
        r@.dom() =~= apps_map(apps@).dom(),
        forall|k: Seq<char>| #![trigger r@[k]] r@.dom().contains(k) ==> r@[k]@ == apps_map(
            apps@,
        )[k],
{
    let n = apps.len();
    let mut r: DeviceMap<String> = DeviceMap::new();
    let mut i: usize = 0;
    while i < n
        invariant
            n == apps@.len(),
            0 <= i <= n,
            r.wf(),
            r@.dom() =~= apps_map(apps@.take(i as int)).dom(),
            forall|k: Seq<char>| #![trigger r@[k]] r@.dom().contains(k) ==> r@[k]@ == apps_map(
                apps@.take(i as int),
            )[k],
        decreases n - i,
    {
        proof {
            assert(apps@.take(i as int + 1).drop_last() =~= apps@.take(i as int));
            assert(apps@.take(i as int + 1).last() == apps@[i as int]);
        }
        if apps[i].get_task_allow {
            let name: String = match &apps[i].name {
                Some(n2) => n2.clone(),
                None => apps[i].bundle_id.clone(),
            };
            let bundle = apps[i].bundle_id.clone();
            r.insert(name, bundle);
        }
        i += 1;
    }
    proof {
        assert(apps@.take(n as int) =~= apps@);
    }
    r
}

} // verus!
