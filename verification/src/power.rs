//! Runtime power-off of the NVIDIA GPU: the decisions of the unbind and
//! remove protocol. The caller performs each sysfs write and hands back
//! what happened; these functions say what comes next.

use vstd::prelude::*;
use crate::error::GswitchError;
use crate::text::{joined_path, push_str};

verus! {

/// How a power-off request begins.
#[derive(Debug)]
pub enum PowerOffStart {
    /// The GPU is not in sysfs any more: it is already off.
    AlreadyOff,
    /// Power off the GPU at this PCI address.
    Proceed(String),
}

/// The first decision of a power-off: refuse while processes use the GPU;
/// go on with the GPU's PCI address when it is known; when it is not, the
/// GPU is already off unless sysfs still shows it, which is an error.
pub fn power_off_start(busy: bool, pci_id: Option<String>, online: bool) -> (r: Result<PowerOffStart, GswitchError>)
    ensures
        busy ==> (r matches Err(GswitchError::Gpu(m)) && m@ == "NVIDIA GPU 上仍有进程在运行，请先终止它们"@),
        !busy && pci_id is Some ==> (r matches Ok(PowerOffStart::Proceed(p)) && p@ == pci_id->0@),
        !busy && pci_id is None && !online ==> r matches Ok(PowerOffStart::AlreadyOff),
        !busy && pci_id is None && online ==> (r matches Err(GswitchError::Gpu(m)) && m@ == "无法获取 NVIDIA GPU 的 PCI ID，请检查系统状态"@),
{
    if busy {
        return Err(GswitchError::Gpu("NVIDIA GPU 上仍有进程在运行，请先终止它们".to_string()));
    }
    match pci_id {
        Some(p) => Ok(PowerOffStart::Proceed(p)),
        None => {
            if !online {
                Ok(PowerOffStart::AlreadyOff)
            } else {
                Err(GswitchError::Gpu("无法获取 NVIDIA GPU 的 PCI ID，请检查系统状态".to_string()))
            }
        },
    }
}

/// `/sys/bus/pci/devices/<addr>/<leaf>`.
pub fn pci_device_path(addr: &str, leaf: &str) -> (r: String)
    ensures
        r@ == "/sys/bus/pci/devices/"@ + addr@ + "/"@ + leaf@,
{
    let mut s = String::new();
    push_str(&mut s, "/sys/bus/pci/devices/");
    push_str(&mut s, addr);
    push_str(&mut s, "/");
    push_str(&mut s, leaf);
    proof {
        assert(s@ =~= "/sys/bus/pci/devices/"@ + addr@ + "/"@ + leaf@);
    }
    s
}

/// `/sys/bus/pci/drivers/<driver>/<leaf>`.
pub fn pci_driver_path(driver: &str, leaf: &str) -> (r: String)
    ensures
        r@ == "/sys/bus/pci/drivers/"@ + driver@ + "/"@ + leaf@,
{
    let mut s = String::new();
    push_str(&mut s, "/sys/bus/pci/drivers/");
    push_str(&mut s, driver);
    push_str(&mut s, "/");
    push_str(&mut s, leaf);
    proof {
        assert(s@ =~= "/sys/bus/pci/drivers/"@ + driver@ + "/"@ + leaf@);
    }
    s
}

/// A PCI function bound to a driver.
#[derive(Debug)]
pub struct BoundFunction {
    pub name: String,
    pub driver: String,
}

/// A bound function as plain text: address and driver.
pub open spec fn bound_view(b: BoundFunction) -> (Seq<char>, Seq<char>) {
    (b.name@, b.driver@)
}

/// The views of a list of optional strings.
pub open spec fn opt_views(v: Seq<Option<String>>) -> Seq<Option<Seq<char>>> {
    v.map_values(|o: Option<String>| match o {
        Some(s) => Some(s@),
        None => None,
    })
}

/// The functions to unbind, in order: those that have a driver, with it.
pub open spec fn unbind_list(names: Seq<Seq<char>>, drivers: Seq<Option<Seq<char>>>) -> Seq<(Seq<char>, Seq<char>)>
    decreases names.len(),
{
    if names.len() == 0 || drivers.len() == 0 {
        Seq::empty()
    } else {
        let rest = unbind_list(names.drop_last(), drivers.drop_last());
        match drivers.last() {
            Some(d) => rest.push((names.last(), d)),
            None => rest,
        }
    }
}

/// The functions to bind again after a failed unbind: those whose unbind
/// succeeded, the last one unbound first.
pub open spec fn rebind_list(targets: Seq<(Seq<char>, Seq<char>)>, errors: Seq<Option<Seq<char>>>) -> Seq<(Seq<char>, Seq<char>)>
    decreases targets.len(),
{
    if targets.len() == 0 || errors.len() == 0 {
        Seq::empty()
    } else {
        let rest = rebind_list(targets.drop_last(), errors.drop_last());
        if errors.last() is None {
            seq![targets.last()] + rest
        } else {
            rest
        }
    }
}

/// One message per failed step, in order: `<verb> <name> 失败: <error>`.
pub open spec fn failure_messages(verb: Seq<char>, names: Seq<Seq<char>>, errors: Seq<Option<Seq<char>>>) -> Seq<Seq<char>>
    decreases names.len(),
{
    if names.len() == 0 || errors.len() == 0 {
        Seq::empty()
    } else {
        let rest = failure_messages(verb, names.drop_last(), errors.drop_last());
        match errors.last() {
            Some(e) => rest.push(verb + " "@ + names.last() + " 失败: "@ + e),
            None => rest,
        }
    }
}

/// The parts joined by `sep`.
pub open spec fn joined(parts: Seq<Seq<char>>, sep: Seq<char>) -> Seq<char>
    decreases parts.len(),
{
    if parts.len() == 0 {
        Seq::empty()
    } else if parts.len() == 1 {
        parts[0]
    } else {
        joined(parts.drop_last(), sep) + sep + parts.last()
    }
}

/// No failure message comes out exactly when no step failed.
proof fn lemma_no_failures(verb: Seq<char>, names: Seq<Seq<char>>, errors: Seq<Option<Seq<char>>>)
    requires
        names.len() == errors.len(),
    ensures
        failure_messages(verb, names, errors).len() == 0 <==> forall|i: int| 0 <= i < errors.len() ==> #[trigger] errors[i] is None,
    decreases names.len(),
{
    if names.len() > 0 {
        lemma_no_failures(verb, names.drop_last(), errors.drop_last());
        if failure_messages(verb, names, errors).len() == 0 {
            assert forall|i: int| 0 <= i < errors.len() implies #[trigger] errors[i] is None by {
                if i < errors.len() - 1 {
                    assert(errors.drop_last()[i] == errors[i]);
                }
            }
        } else {
            if forall|i: int| 0 <= i < errors.len() ==> #[trigger] errors[i] is None {
                assert(errors.last() is None);
                assert forall|i: int| 0 <= i < errors.drop_last().len() implies #[trigger] errors.drop_last()[i] is None by {
                    assert(errors[i] is None);
                }
            }
        }
    }
}

/// The functions to unbind: each address paired with its driver, leaving
/// out those bound to none (`drivers[i]` is what the `driver` link of
/// `names[i]` names).
pub fn unbind_targets(names: &Vec<String>, drivers: &Vec<Option<String>>) -> (r: Vec<BoundFunction>)
    requires
        names.len() == drivers.len(),
    ensures
        r@.map_values(|b: BoundFunction| bound_view(b)) == unbind_list(names@.map_values(|s: String| s@), opt_views(drivers@)),
{
    let ghost nv = names@.map_values(|s: String| s@);
    let ghost dv = opt_views(drivers@);
    let mut out: Vec<BoundFunction> = Vec::new();
    let mut i: usize = 0;
    while i < names.len()
        invariant
            i <= names.len() == drivers.len(),
            nv == names@.map_values(|s: String| s@),
            dv == opt_views(drivers@),
            out@.map_values(|b: BoundFunction| bound_view(b)) == unbind_list(nv.take(i as int), dv.take(i as int)),
        decreases names.len() - i,
    {
        let ghost before = out@.map_values(|b: BoundFunction| bound_view(b));
        proof {
            assert(nv.take(i as int + 1).drop_last() =~= nv.take(i as int));
            assert(dv.take(i as int + 1).drop_last() =~= dv.take(i as int));
            assert(nv.take(i as int + 1).last() == names@[i as int]@);
            assert(dv.take(i as int + 1).last() == dv[i as int]);
        }
        match &drivers[i] {
            Some(d) => {
                out.push(BoundFunction { name: names[i].clone(), driver: d.clone() });
                proof {
                    assert(out@.map_values(|b: BoundFunction| bound_view(b)) =~= before.push((nv[i as int], d@)));
                }
            },
            None => {},
        }
        i += 1;
    }
    proof {
        assert(nv.take(names.len() as int) =~= nv);
        assert(dv.take(names.len() as int) =~= dv);
    }
    out
}

/// The functions to bind again after a failed unbind: `errors[i]` is how
/// the unbind of `targets[i]` failed, `None` when it succeeded. Those that
/// were unbound come back, the last one first.
pub fn rebind_plan(targets: &Vec<BoundFunction>, errors: &Vec<Option<String>>) -> (r: Vec<BoundFunction>)
    requires
        targets.len() == errors.len(),
    ensures
        r@.map_values(|b: BoundFunction| bound_view(b)) == rebind_list(targets@.map_values(|b: BoundFunction| bound_view(b)), opt_views(errors@)),
{
    let ghost tv = targets@.map_values(|b: BoundFunction| bound_view(b));
    let ghost ev = opt_views(errors@);
    let mut out: Vec<BoundFunction> = Vec::new();
    let mut i: usize = targets.len();
    proof {
        assert(tv.take(i as int) =~= tv);
        assert(ev.take(i as int) =~= ev);
    }
    while i > 0
        invariant
            i <= targets.len() == errors.len(),
            tv == targets@.map_values(|b: BoundFunction| bound_view(b)),
            ev == opt_views(errors@),
            rebind_list(tv, ev) == out@.map_values(|b: BoundFunction| bound_view(b)) + rebind_list(tv.take(i as int), ev.take(i as int)),
        decreases i,
    {
        let ghost before = out@.map_values(|b: BoundFunction| bound_view(b));
        let k = i - 1;
        proof {
            assert(tv.take(i as int).drop_last() =~= tv.take(k as int));
            assert(ev.take(i as int).drop_last() =~= ev.take(k as int));
            assert(tv.take(i as int).last() == tv[k as int]);
            assert(ev.take(i as int).last() == ev[k as int]);
        }
        if errors[k].is_none() {
            let t = &targets[k];
            out.push(BoundFunction { name: t.name.clone(), driver: t.driver.clone() });
            proof {
                assert(out@.map_values(|b: BoundFunction| bound_view(b)) =~= before.push(tv[k as int]));
                let rest = rebind_list(tv.take(k as int), ev.take(k as int));
                assert(before + (seq![tv[k as int]] + rest) =~= before.push(tv[k as int]) + rest);
            }
        }
        i = k;
    }
    proof {
        assert(out@.map_values(|b: BoundFunction| bound_view(b)) + Seq::<(Seq<char>, Seq<char>)>::empty() =~= out@.map_values(|b: BoundFunction| bound_view(b)));
    }
    out
}

/// The error report of a step run over `names`: `errors[i]` is how the step
/// failed on `names[i]`, `None` when it succeeded. `None` when no step
/// failed; else one `<verb> <name> 失败: <error>` message per failure,
/// joined by `; `.
pub fn failure_report(verb: &str, names: &Vec<String>, errors: &Vec<Option<String>>) -> (r: Option<String>)
    requires
        names.len() == errors.len(),
    ensures
        r is None <==> forall|i: int| 0 <= i < errors.len() ==> #[trigger] errors@[i] is None,
        r matches Some(s) ==> s@ == joined(failure_messages(verb@, names@.map_values(|s: String| s@), opt_views(errors@)), "; "@),
{
    let ghost nv = names@.map_values(|s: String| s@);
    let ghost ev = opt_views(errors@);
    let mut out = String::new();
    let mut count: usize = 0;
    let mut i: usize = 0;
    while i < names.len()
        invariant
            i <= names.len() == errors.len(),
            nv == names@.map_values(|s: String| s@),
            ev == opt_views(errors@),
            count == failure_messages(verb@, nv.take(i as int), ev.take(i as int)).len(),
            count <= i,
            out@ == joined(failure_messages(verb@, nv.take(i as int), ev.take(i as int)), "; "@),
        decreases names.len() - i,
    {
        let ghost ms = failure_messages(verb@, nv.take(i as int), ev.take(i as int));
        proof {
            assert(nv.take(i as int + 1).drop_last() =~= nv.take(i as int));
            assert(ev.take(i as int + 1).drop_last() =~= ev.take(i as int));
            assert(nv.take(i as int + 1).last() == names@[i as int]@);
            assert(ev.take(i as int + 1).last() == ev[i as int]);
        }
        match &errors[i] {
            Some(e) => {
                if count > 0 {
                    push_str(&mut out, "; ");
                }
                push_str(&mut out, verb);
                push_str(&mut out, " ");
                push_str(&mut out, names[i].as_str());
                push_str(&mut out, " 失败: ");
                push_str(&mut out, e.as_str());
                proof {
                    let m = verb@ + " "@ + names@[i as int]@ + " 失败: "@ + e@;
                    assert(ms.push(m).drop_last() =~= ms);
                    if count > 0 {
                        assert(out@ =~= joined(ms, "; "@) + "; "@ + m);
                    } else {
                        assert(out@ =~= m);
                    }
                }
                count = count + 1;
            },
            None => {},
        }
        i += 1;
    }
    proof {
        assert(nv.take(names.len() as int) =~= nv);
        assert(ev.take(names.len() as int) =~= ev);
        lemma_no_failures(verb@, nv, ev);
        assert forall|i: int| 0 <= i < errors.len() implies (#[trigger] errors@[i] is None <==> ev[i] is None) by {}
    }
    if count == 0 {
        None
    } else {
        Some(out)
    }
}

/// Where a power-off stands.
#[derive(Debug)]
pub enum PowerOffPhase {
    /// The unbinds were asked for; their outcomes come next.
    Unbinding,
    /// An unbind failed (the report says how); the rebinds were asked for.
    Rebinding(String),
    /// Every unbind succeeded; the removals were asked for.
    Removing,
    /// A removal failed (the report says how); the rescan was asked for.
    Rescanning(String),
    /// The power-off is over.
    Finished,
}

/// A phase as plain values.
pub enum PhaseView {
    Unbinding,
    Rebinding(Seq<char>),
    Removing,
    Rescanning(Seq<char>),
    Finished,
}

/// The value of a phase.
pub open spec fn phase_view(p: PowerOffPhase) -> PhaseView {
    match p {
        PowerOffPhase::Unbinding => PhaseView::Unbinding,
        PowerOffPhase::Rebinding(m) => PhaseView::Rebinding(m@),
        PowerOffPhase::Removing => PhaseView::Removing,
        PowerOffPhase::Rescanning(m) => PhaseView::Rescanning(m@),
        PowerOffPhase::Finished => PhaseView::Finished,
    }
}

/// What the caller does next in a power-off.
#[derive(Debug)]
pub enum PowerOffAction {
    /// Write each function's address to its driver's `unbind`, in order.
    Unbind(Vec<BoundFunction>),
    /// Write each function's address to its driver's `bind`, in order.
    Rebind(Vec<BoundFunction>),
    /// Write `1` to each function's `remove`, in order.
    Remove(Vec<String>),
    /// Write `1` to `/sys/bus/pci/rescan`.
    Rescan,
    /// The power-off is over, with this result.
    Done(Result<(), GswitchError>),
}

/// The views of a list of bound functions.
pub open spec fn bound_views(v: Seq<BoundFunction>) -> Seq<(Seq<char>, Seq<char>)> {
    v.map_values(|b: BoundFunction| bound_view(b))
}

/// The texts of a list of strings.
pub open spec fn texts(v: Seq<String>) -> Seq<Seq<char>> {
    v.map_values(|s: String| s@)
}

/// The addresses of bound functions.
pub open spec fn bound_names(v: Seq<(Seq<char>, Seq<char>)>) -> Seq<Seq<char>> {
    v.map_values(|b: (Seq<char>, Seq<char>)| b.0)
}

/// No step failed.
pub open spec fn all_succeeded(outcomes: Seq<Option<Seq<char>>>) -> bool {
    forall|i: int| 0 <= i < outcomes.len() ==> #[trigger] outcomes[i] is None
}

/// The unbind-then-remove protocol of a power-off, one batch of sysfs
/// writes at a time: every bound function of the GPU's slot is unbound,
/// highest function first; when an unbind fails, those unbound are bound
/// again (last first) and the power-off fails with the report; otherwise
/// every function is removed in the same order, and when a removal fails
/// the bus is rescanned and the power-off fails with the report.
pub struct PowerOff {
    functions: Vec<String>,
    targets: Vec<BoundFunction>,
    phase: PowerOffPhase,
}

fn copy_texts(v: &Vec<String>) -> (r: Vec<String>)
    ensures
        texts(r@) == texts(v@),
{
    let mut out: Vec<String> = Vec::new();
    let mut i: usize = 0;
    while i < v.len()
        invariant
            i <= v.len(),
            texts(out@) == texts(v@.take(i as int)),
        decreases v.len() - i,
    {
        let ghost before = out@;
        out.push(v[i].clone());
        proof {
            assert(texts(out@) =~= texts(before).push(v@[i as int]@));
            assert(texts(v@.take(i as int + 1)) =~= texts(v@.take(i as int)).push(v@[i as int]@));
        }
        i += 1;
    }
    proof {
        assert(v@.take(v.len() as int) =~= v@);
    }
    out
}

fn copy_bound(v: &Vec<BoundFunction>) -> (r: Vec<BoundFunction>)
    ensures
        bound_views(r@) == bound_views(v@),
{
    let mut out: Vec<BoundFunction> = Vec::new();
    let mut i: usize = 0;
    while i < v.len()
        invariant
            i <= v.len(),
            bound_views(out@) == bound_views(v@.take(i as int)),
        decreases v.len() - i,
    {
        let ghost before = out@;
        out.push(BoundFunction { name: v[i].name.clone(), driver: v[i].driver.clone() });
        proof {
            assert(bound_views(out@) =~= bound_views(before).push(bound_view(v@[i as int])));
            assert(bound_views(v@.take(i as int + 1)) =~= bound_views(v@.take(i as int)).push(bound_view(v@[i as int])));
        }
        i += 1;
    }
    proof {
        assert(v@.take(v.len() as int) =~= v@);
    }
    out
}

impl PowerOff {
    /// The functions to power off, in order.
    pub closed spec fn functions(&self) -> Seq<Seq<char>> {
        texts(self.functions@)
    }

    /// The functions to unbind, with their drivers, in order.
    pub closed spec fn targets(&self) -> Seq<(Seq<char>, Seq<char>)> {
        bound_views(self.targets@)
    }

    /// Where the power-off stands.
    pub closed spec fn phase(&self) -> PhaseView {
        phase_view(self.phase)
    }

    /// Begins powering off `functions` (as `power_off_functions` orders
    /// them), `drivers[i]` being the driver that `functions[i]` is bound to:
    /// the first step unbinds every bound function, in order.
    pub fn start(functions: Vec<String>, drivers: &Vec<Option<String>>) -> (r: (PowerOff, PowerOffAction))
        requires
            functions.len() == drivers.len(),
        ensures
            r.0.functions() == texts(functions@),
            r.0.targets() == unbind_list(texts(functions@), opt_views(drivers@)),
            r.0.phase() == PhaseView::Unbinding,
            r.1 matches PowerOffAction::Unbind(t) && bound_views(t@) == r.0.targets(),
    {
        let targets = unbind_targets(&functions, drivers);
        let action = PowerOffAction::Unbind(copy_bound(&targets));
        (PowerOff { functions, targets, phase: PowerOffPhase::Unbinding }, action)
    }

    /// The next step, given how the last batch of writes went:
    /// `outcomes[i]` is how the `i`-th write failed, `None` when it
    /// succeeded (unbinds and removals report one outcome per write; the
    /// outcomes of rebinds and of the rescan do not change what follows).
    pub fn step(&mut self, outcomes: &Vec<Option<String>>) -> (a: PowerOffAction)
        requires
            !(old(self).phase() is Finished),
            old(self).phase() is Unbinding ==> outcomes.len() == old(self).targets().len(),
            old(self).phase() is Removing ==> outcomes.len() == old(self).functions().len(),
        ensures
            final(self).functions() == old(self).functions(),
            final(self).targets() == old(self).targets(),
            ({
                let errs = opt_views(outcomes@);
                match old(self).phase() {
                    PhaseView::Unbinding => if all_succeeded(errs) {
                        &&& final(self).phase() == PhaseView::Removing
                        &&& a matches PowerOffAction::Remove(fs) && texts(fs@) == old(self).functions()
                    } else {
                        &&& final(self).phase() == PhaseView::Rebinding(
                            joined(failure_messages("解绑"@, bound_names(old(self).targets()), errs), "; "@),
                        )
                        &&& a matches PowerOffAction::Rebind(bs) && bound_views(bs@) == rebind_list(old(self).targets(), errs)
                    },
                    PhaseView::Rebinding(m) => {
                        &&& final(self).phase() == PhaseView::Finished
                        &&& a matches PowerOffAction::Done(Err(GswitchError::Gpu(e))) && e@ == m
                    },
                    PhaseView::Removing => if all_succeeded(errs) {
                        &&& final(self).phase() == PhaseView::Finished
                        &&& a matches PowerOffAction::Done(Ok(()))
                    } else {
                        &&& final(self).phase() == PhaseView::Rescanning(
                            joined(failure_messages("移除"@, old(self).functions(), errs), "; "@),
                        )
                        &&& a matches PowerOffAction::Rescan
                    },
                    PhaseView::Rescanning(m) => {
                        &&& final(self).phase() == PhaseView::Finished
                        &&& a matches PowerOffAction::Done(Err(GswitchError::Gpu(e))) && e@ == m
                    },
                    PhaseView::Finished => true,
                }
            }),
    {
        let ghost errs = opt_views(outcomes@);
        match &self.phase {
            PowerOffPhase::Unbinding => {
                let mut names: Vec<String> = Vec::new();
                let mut i: usize = 0;
                while i < self.targets.len()
                    invariant
                        i <= self.targets.len(),
                        texts(names@) == bound_names(bound_views(self.targets@)).take(i as int),
                    decreases self.targets.len() - i,
                {
                    let ghost before = names@;
                    names.push(self.targets[i].name.clone());
                    proof {
                        assert(texts(names@) =~= texts(before).push(self.targets@[i as int].name@));
                        assert(bound_names(bound_views(self.targets@)).take(i as int + 1) =~= bound_names(bound_views(self.targets@)).take(
                            i as int,
                        ).push(self.targets@[i as int].name@));
                    }
                    i += 1;
                }
                proof {
                    assert(bound_names(bound_views(self.targets@)).take(self.targets.len() as int) =~= bound_names(
                        bound_views(self.targets@),
                    ));
                    assert forall|k: int| 0 <= k < outcomes.len() implies (#[trigger] outcomes@[k] is None <==> errs[k] is None) by {}
                }
                match failure_report("解绑", &names, outcomes) {
                    Some(report) => {
                        let plan = rebind_plan(&self.targets, outcomes);
                        self.phase = PowerOffPhase::Rebinding(report);
                        PowerOffAction::Rebind(plan)
                    },
                    None => {
                        self.phase = PowerOffPhase::Removing;
                        PowerOffAction::Remove(copy_texts(&self.functions))
                    },
                }
            },
            PowerOffPhase::Rebinding(m) => {
                let e = m.clone();
                self.phase = PowerOffPhase::Finished;
                PowerOffAction::Done(Err(GswitchError::Gpu(e)))
            },
            PowerOffPhase::Removing => {
                proof {
                    assert forall|k: int| 0 <= k < outcomes.len() implies (#[trigger] outcomes@[k] is None <==> errs[k] is None) by {}
                }
                match failure_report("移除", &self.functions, outcomes) {
                    Some(report) => {
                        self.phase = PowerOffPhase::Rescanning(report);
                        PowerOffAction::Rescan
                    },
                    None => {
                        self.phase = PowerOffPhase::Finished;
                        PowerOffAction::Done(Ok(()))
                    },
                }
            },
            PowerOffPhase::Rescanning(m) => {
                let e = m.clone();
                self.phase = PowerOffPhase::Finished;
                PowerOffAction::Done(Err(GswitchError::Gpu(e)))
            },
            PowerOffPhase::Finished => PowerOffAction::Done(Ok(())),
        }
    }
}

/// The places searched for `nvidia-smi`, in order: each directory of the
/// `PATH` value, when it is set (split on `:`), joined with `nvidia-smi` as
/// a path; then the usual absolute locations.
pub open spec fn smi_candidates(path_var: Option<Seq<char>>) -> Seq<Seq<char>> {
    let dirs = match path_var {
        Some(p) => crate::text::split_on(p, ':'),
        None => Seq::empty(),
    };
    dirs.map_values(|d: Seq<char>| joined_path(d, "nvidia-smi"@))
        + seq!["/usr/bin/nvidia-smi"@, "/usr/local/bin/nvidia-smi"@, "/usr/local/sbin/nvidia-smi"@]
}

/// The paths at which `nvidia-smi` is looked for, in order (see
/// `smi_candidates`); the first that exists is used.
pub fn nvidia_smi_candidates(path_var: Option<&str>) -> (r: Vec<String>)
    ensures
        r@.map_values(|s: String| s@) == smi_candidates(match path_var {
            Some(p) => Some(p@),
            None => None,
        }),
{
    let dirs: Vec<Vec<char>> = match path_var {
        Some(p) => crate::text::split_chars(&crate::text::chars_of(p), ':'),
        None => Vec::new(),
    };
    let ghost dv = crate::text::views(dirs@);
    proof {
        if path_var is None {
            assert(dv =~= Seq::<Seq<char>>::empty());
        }
    }
    let mut out: Vec<String> = Vec::new();
    let mut i: usize = 0;
    while i < dirs.len()
        invariant
            i <= dirs.len(),
            dv == crate::text::views(dirs@),
            dv == match path_var {
                Some(p) => crate::text::split_on(p@, ':'),
                None => Seq::empty(),
            },
            out@.map_values(|s: String| s@) == dv.take(i as int).map_values(|d: Seq<char>| joined_path(d, "nvidia-smi"@)),
        decreases dirs.len() - i,
    {
        let d = &dirs[i];
        let s = crate::text::join_path(d, "nvidia-smi");
        proof {
            assert(dv[i as int] == d@);
        }
        let ghost before = out@.map_values(|x: String| x@);
        out.push(s);
        proof {
            assert(out@.map_values(|x: String| x@) =~= before.push(joined_path(d@, "nvidia-smi"@)));
            assert(dv.take(i as int + 1).map_values(|d: Seq<char>| joined_path(d, "nvidia-smi"@)) =~= dv.take(i as int).map_values(
                |d: Seq<char>| joined_path(d, "nvidia-smi"@),
            ).push(joined_path(d@, "nvidia-smi"@)));
        }
        i += 1;
    }
    proof {
        assert(dv.take(dirs.len() as int) =~= dv);
    }
    let ghost before = out@.map_values(|x: String| x@);
    out.push("/usr/bin/nvidia-smi".to_string());
    out.push("/usr/local/bin/nvidia-smi".to_string());
    out.push("/usr/local/sbin/nvidia-smi".to_string());
    proof {
        assert(out@.map_values(|x: String| x@) =~= before + seq!["/usr/bin/nvidia-smi"@, "/usr/local/bin/nvidia-smi"@, "/usr/local/sbin/nvidia-smi"@]);
    }
    out
}

/// How long power control waits for the NVIDIA driver to bind, in
/// milliseconds.
pub const DRIVER_WAIT_MS: u64 = 10000;

/// The pause between two looks at the driver link, in milliseconds.
pub const DRIVER_POLL_MS: u64 = 300;

/// The pause that lets a freshly bound driver initialise, in milliseconds.
pub const DRIVER_SETTLE_MS: u64 = 2000;

/// The next step while waiting for the NVIDIA driver before setting power
/// control.
#[derive(Debug, Clone, Copy, PartialEq, Eq, Structural)]
pub enum DriverWait {
    /// The driver is bound: pause `DRIVER_SETTLE_MS`, then set power control.
    Settle,
    /// Not bound yet: pause `DRIVER_POLL_MS` and look again.
    Poll,
    /// The wait is over without a driver: warn, then set power control.
    GiveUp,
}

/// The next step of the wait, `elapsed_ms` after it began, with `bound`
/// telling whether the driver link names a driver: once `DRIVER_WAIT_MS`
/// have passed the wait gives up; before that a bound driver ends it and
/// an unbound one means another look.
pub fn driver_wait_step(bound: bool, elapsed_ms: u64) -> (r: DriverWait)
    ensures
        elapsed_ms >= DRIVER_WAIT_MS ==> r == DriverWait::GiveUp,
        elapsed_ms < DRIVER_WAIT_MS && bound ==> r == DriverWait::Settle,
        elapsed_ms < DRIVER_WAIT_MS && !bound ==> r == DriverWait::Poll,
{
    if elapsed_ms >= DRIVER_WAIT_MS {
        DriverWait::GiveUp
    } else if bound {
        DriverWait::Settle
    } else {
        DriverWait::Poll
    }
}

} // verus!
