//! The relay's startup decision. The relay loads the probe image and
//! attaches every configured target; the system runs fully
//! instrumented or not at all, so any single load or attach failure
//! aborts startup, naming the target that failed, before any event is
//! traced.

use vstd::prelude::*;
use vstd::string::StringExecFns;

verus! {

/// The kind of hook one attachment target uses.
#[derive(Clone, Copy, PartialEq, Eq, Structural, Debug)]
pub enum HookKind {
    /// An entry-side hook on a traced event.
    Entry,
    /// An exit-side hook on a traced event.
    Exit,
    /// A return-side hook on a traced function.
    FunctionReturn,
}

/// One configured attachment target: the symbolic name of the kernel
/// event, the kind of hook, and whether its handler touches the
/// correlation store.
pub struct AttachTarget {
    pub name: String,
    pub kind: HookKind,
    pub uses_store: bool,
}

/// Builds one target row.
fn target(name: &str, kind: HookKind, uses_store: bool) -> (t: AttachTarget)
    ensures
        t.name@ == name@,
        t.kind == kind,
        t.uses_store == uses_store,
{
    AttachTarget { name: name.to_owned(), kind, uses_store }
}

/// The deployment's instrumentation table: the enter/exit tracepoint
/// pair of each traced syscall. Only the futex pair correlates entry
/// and exit through the store; the rest emit plain invocation records.
pub fn attach_targets() -> (r: Vec<AttachTarget>)
    ensures
        r@.len() == 12,
        r@[0].name@ == "sys_enter_futex"@ && r@[0].kind == HookKind::Entry && r@[0].uses_store,
        r@[1].name@ == "sys_exit_futex"@ && r@[1].kind == HookKind::Exit && r@[1].uses_store,
        r@[2].name@ == "sys_enter_mmap"@ && r@[2].kind == HookKind::Entry && !r@[2].uses_store,
        r@[3].name@ == "sys_exit_mmap"@ && r@[3].kind == HookKind::Exit && !r@[3].uses_store,
        r@[4].name@ == "sys_enter_read"@ && r@[4].kind == HookKind::Entry && !r@[4].uses_store,
        r@[5].name@ == "sys_exit_read"@ && r@[5].kind == HookKind::Exit && !r@[5].uses_store,
        r@[6].name@ == "sys_enter_close"@ && r@[6].kind == HookKind::Entry && !r@[6].uses_store,
        r@[7].name@ == "sys_exit_close"@ && r@[7].kind == HookKind::Exit && !r@[7].uses_store,
        r@[8].name@ == "sys_enter_munmap"@ && r@[8].kind == HookKind::Entry && !r@[8].uses_store,
        r@[9].name@ == "sys_exit_munmap"@ && r@[9].kind == HookKind::Exit && !r@[9].uses_store,
        r@[10].name@ == "sys_enter_brk"@ && r@[10].kind == HookKind::Entry && !r@[10].uses_store,
        r@[11].name@ == "sys_exit_brk"@ && r@[11].kind == HookKind::Exit && !r@[11].uses_store,
{
    let mut r: Vec<AttachTarget> = Vec::new();
    r.push(target("sys_enter_futex", HookKind::Entry, true));
    r.push(target("sys_exit_futex", HookKind::Exit, true));
    r.push(target("sys_enter_mmap", HookKind::Entry, false));
    r.push(target("sys_exit_mmap", HookKind::Exit, false));
    r.push(target("sys_enter_read", HookKind::Entry, false));
    r.push(target("sys_exit_read", HookKind::Exit, false));
    r.push(target("sys_enter_close", HookKind::Entry, false));
    r.push(target("sys_exit_close", HookKind::Exit, false));
    r.push(target("sys_enter_munmap", HookKind::Entry, false));
    r.push(target("sys_exit_munmap", HookKind::Exit, false));
    r.push(target("sys_enter_brk", HookKind::Entry, false));
    r.push(target("sys_exit_brk", HookKind::Exit, false));
    r
}

/// The index of the first target whose load or attach failed, if any:
/// `None` exactly when every target attached.
pub fn first_failure(attached: &Vec<bool>) -> (r: Option<usize>)
    ensures
        match r {
            Some(i) => i < attached@.len() && !attached@[i as int] && (forall|j: int|
                0 <= j < i ==> attached@[j]),
            None => forall|j: int| 0 <= j < attached@.len() ==> attached@[j],
        },
{
    let n = attached.len();
    let mut i: usize = 0;
    while i < n
        invariant
            n == attached@.len(),
            i <= n,
            forall|j: int| 0 <= j < i ==> attached@[j],
        decreases n - i,
    {
        if !attached[i] {
            return Some(i);
        }
        i = i + 1;
    }
    None
}

/// The startup error text naming a failed target.
pub open spec fn attach_error_text(name: Seq<char>) -> Seq<char> {
    "failed to attach "@ + name
}

/// Renders the startup error naming the target that failed.
pub fn attach_error_message(name: &str) -> (r: String)
    ensures
        r@ == attach_error_text(name@),
{
    let mut s = String::from_str("failed to attach ");
    s.append(name);
    s
}

/// The all-or-nothing startup decision: given, for each configured
/// target in table order, whether its load-then-attach succeeded,
/// returns `None` when the run is fully instrumented, and otherwise
/// the error naming the first target that failed — the run must then
/// abort before tracing any event.
pub fn startup_failure(targets: &Vec<AttachTarget>, attached: &Vec<bool>) -> (r: Option<String>)
    requires
        targets@.len() == attached@.len(),
    ensures
        r.is_none() <==> (forall|j: int| 0 <= j < attached@.len() ==> attached@[j]),
        r.is_some() ==> exists|i: int|
            0 <= i < attached@.len() && !attached@[i] && (forall|j: int| 0 <= j < i ==> attached@[j])
                && r->0@ == attach_error_text(targets@[i].name@),
    {
    match first_failure(attached) {
        Some(i) => {
            let t = &targets[i];
            let msg = attach_error_message(t.name.as_str());
            proof {
                assert(!attached@[i as int] && (forall|j: int| 0 <= j < i ==> attached@[j]) && msg@
                    == attach_error_text(targets@[i as int].name@));
            }
            Some(msg)
        },
        None => None,
    }
}

} // verus!
