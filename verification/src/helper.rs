//! The managed part of the host (configuration files, service enablement,
//! the GPU cache, queued commands) and the operations on it.
//!
//! The caller loads the current files, service states and cache into a
//! `HostState`, runs an operation, then writes back what changed and runs
//! the queued commands. In dry-run mode no operation changes anything.

use vstd::prelude::*;
use crate::cache::{CacheData, NvidiaDeviceId};
use crate::error::GswitchError;
use crate::table::{keys_distinct, table_copy_flags, table_copy_text, table_get, table_map, table_remove, table_set};
use crate::config::{
    CLEANUP_PATHS, DRACUT_VFIO_CONF_PATH, DRACUT_VFIO_CONTENT, GENERATED_HEADER, INITRAMFS_TOOLS_MODULES_PATH,
    INITRAMFS_VFIO_LINES, MKINITCPIO_VFIO_CONF_PATH, MKINITCPIO_VFIO_CONTENT, MODESET_PATH, MODPROBE_GPU_PATH,
    PRIME_DISCRETE_PATH, UDEV_INTEGRATED_PATH, UDEV_PM_PATH,
    MODPROBE_S0IX, MODPROBE_S3, NVIDIA_FALLBACK_SERVICE, NVIDIA_POWERD_SERVICE, NVIDIA_SUSPEND_SERVICES,
    NV_ENV_CONTENT, NV_ENV_PATH, SERVICE_SNAPSHOT_NAMES, XORG_CONF_NVIDIA_CONTENT, XORG_CONF_NVIDIA_FALLBACK_PATH,
    XORG_CONF_NVIDIA_PATH,
};
use crate::detector::{binds_vfio, content_or_empty, current_mode, gpus_of, nvidia_loaded, nvidia_vendor, runtimepm_of, sleep_mode_of, Detector, InitramfsTools, SleepMode, SystemInfo};
use crate::num::{parse_radix, parse_unsigned, u32_max};
use crate::graphics::GraphicsMode;
use crate::text::{
    chars_eq, chars_eq_str, chars_of, contains_str, has_sub, lines_chars, lines_of, push_chars, push_str,
    split_chars, split_on, starts_with, starts_with_str, string_of, strip_cr, trim, trim_chars, trim_end, trim_end_chars, views,
};

verus! {

/// What the host holds at the GPU cache path.
#[derive(Debug)]
pub enum CacheFile {
    /// No cache file.
    Absent,
    /// A cache file that could not be read or parsed; the text says why.
    Unreadable(String),
    /// A cache file holding this data.
    Present(CacheData),
}

/// What the cache path holds, as values.
pub enum CacheState {
    Absent,
    Unreadable(Seq<char>),
    Present(u32, Seq<char>, Seq<NvidiaDeviceId>),
}

/// The value of what the cache path holds.
pub open spec fn cache_state_of(c: CacheFile) -> CacheState {
    match c {
        CacheFile::Absent => CacheState::Absent,
        CacheFile::Unreadable(m) => CacheState::Unreadable(m@),
        CacheFile::Present(d) => CacheState::Present(d.version, d.nvidia_gpu_pci_bus@, d.nvidia_device_ids@),
    }
}

/// A command to run, with its arguments.
#[derive(Debug)]
pub struct CommandLine {
    pub program: String,
    pub args: Vec<String>,
}

/// The program and arguments of a command, as text.
pub open spec fn command_view(c: CommandLine) -> (Seq<char>, Seq<Seq<char>>) {
    (c.program@, c.args@.map_values(|a: String| a@))
}

/// The stored version, bus text and device IDs of cache data.
pub open spec fn cache_data_view(d: CacheData) -> (u32, Seq<char>, Seq<NvidiaDeviceId>) {
    (d.version, d.nvidia_gpu_pci_bus@, d.nvidia_device_ids@)
}

/// A copy of cache data.
pub fn copy_cache_data(d: &CacheData) -> (r: CacheData)
    ensures
        cache_data_view(r) == cache_data_view(*d),
{
    let mut ids: Vec<NvidiaDeviceId> = Vec::new();
    let mut i: usize = 0;
    while i < d.nvidia_device_ids.len()
        invariant
            i <= d.nvidia_device_ids.len(),
            ids@ == d.nvidia_device_ids@.take(i as int),
        decreases d.nvidia_device_ids.len() - i,
    {
        let id = d.nvidia_device_ids[i];
        ids.push(NvidiaDeviceId { vendor: id.vendor, device: id.device });
        proof {
            assert(d.nvidia_device_ids@.take(i as int + 1) =~= d.nvidia_device_ids@.take(i as int).push(id));
        }
        i += 1;
    }
    proof {
        assert(d.nvidia_device_ids@.take(d.nvidia_device_ids.len() as int) =~= d.nvidia_device_ids@);
    }
    CacheData { version: d.version, nvidia_gpu_pci_bus: d.nvidia_gpu_pci_bus.clone(), nvidia_device_ids: ids }
}

/// Whether two cache states are the same: the same kind, with the same
/// reason, or the same version, bus text and device IDs.
pub fn same_cache_file(a: &CacheFile, b: &CacheFile) -> (r: bool)
    ensures
        r == (cache_state_of(*a) == cache_state_of(*b)),
{
    match (a, b) {
        (CacheFile::Absent, CacheFile::Absent) => true,
        (CacheFile::Unreadable(x), CacheFile::Unreadable(y)) => chars_eq(&chars_of(x.as_str()), &chars_of(y.as_str())),
        (CacheFile::Present(x), CacheFile::Present(y)) => {
            if x.version != y.version || !chars_eq(&chars_of(x.nvidia_gpu_pci_bus.as_str()), &chars_of(y.nvidia_gpu_pci_bus.as_str())) {
                return false;
            }
            if x.nvidia_device_ids.len() != y.nvidia_device_ids.len() {
                return false;
            }
            let mut same = true;
            let mut k: usize = 0;
            while k < x.nvidia_device_ids.len() && same
                invariant
                    k <= x.nvidia_device_ids.len() == y.nvidia_device_ids.len(),
                    same ==> forall|j: int| 0 <= j < k ==> x.nvidia_device_ids@[j] == y.nvidia_device_ids@[j],
                    !same ==> x.nvidia_device_ids@ != y.nvidia_device_ids@,
                decreases x.nvidia_device_ids.len() - k,
            {
                let (p, q) = (x.nvidia_device_ids[k], y.nvidia_device_ids[k]);
                if p.vendor != q.vendor || p.device != q.device {
                    proof {
                        assert(x.nvidia_device_ids@[k as int] != y.nvidia_device_ids@[k as int]);
                    }
                    same = false;
                }
                k += 1;
            }
            proof {
                if same {
                    assert(x.nvidia_device_ids@ =~= y.nvidia_device_ids@);
                }
            }
            same
        },
        _ => false,
    }
}

/// A copy of a list of strings.
fn copy_strings(v: &Vec<String>) -> (r: Vec<String>)
    ensures
        r@.map_values(|a: String| a@) == v@.map_values(|a: String| a@),
{
    let mut out: Vec<String> = Vec::new();
    let mut i: usize = 0;
    while i < v.len()
        invariant
            i <= v.len(),
            out@.map_values(|a: String| a@) == v@.take(i as int).map_values(|a: String| a@),
        decreases v.len() - i,
    {
        let ghost before = out@;
        out.push(v[i].clone());
        proof {
            assert(out@.map_values(|a: String| a@) =~= before.map_values(|a: String| a@).push(v@[i as int]@));
            assert(v@.take(i as int + 1).map_values(|a: String| a@) =~= v@.take(i as int).map_values(|a: String| a@).push(v@[i as int]@));
        }
        i += 1;
    }
    proof {
        assert(v@.take(v.len() as int) =~= v@);
    }
    out
}

/// A copy of a command.
fn copy_command(c: &CommandLine) -> (r: CommandLine)
    ensures
        command_view(r) == command_view(*c),
{
    CommandLine { program: c.program.clone(), args: copy_strings(&c.args) }
}

/// A copy of what the cache path holds.
fn copy_cache_file(c: &CacheFile) -> (r: CacheFile)
    ensures
        cache_state_of(r) == cache_state_of(*c),
{
    match c {
        CacheFile::Absent => CacheFile::Absent,
        CacheFile::Unreadable(m) => CacheFile::Unreadable(m.clone()),
        CacheFile::Present(d) => CacheFile::Present(copy_cache_data(d)),
    }
}

/// The managed part of the host as the tool sees it.
pub struct HostState {
    dry_run: bool,
    files: Vec<(String, String)>,
    services: Vec<(String, bool)>,
    cache: CacheFile,
    commands: Vec<CommandLine>,
}

impl HostState {
    /// Preview mode: operations report success and change nothing.
    pub closed spec fn dry(&self) -> bool {
        self.dry_run
    }

    /// Whether this is a preview.
    pub fn is_dry_run(&self) -> (r: bool)
        ensures
            r == self.dry(),
    {
        self.dry_run
    }

    /// The tables have distinct keys.
    pub closed spec fn wf(&self) -> bool {
        &&& keys_distinct(self.files@)
        &&& keys_distinct(self.services@)
    }

    /// Existing files: path to content.
    pub closed spec fn files(&self) -> Map<Seq<char>, Seq<char>> {
        table_map(self.files@)
    }

    /// Services whose enablement is known: name to enabled.
    pub closed spec fn services(&self) -> Map<Seq<char>, bool> {
        table_map(self.services@)
    }

    /// The GPU cache.
    pub closed spec fn cache(&self) -> CacheState {
        cache_state_of(self.cache)
    }

    /// Commands queued so far, in order.
    pub closed spec fn commands(&self) -> Seq<(Seq<char>, Seq<Seq<char>>)> {
        self.commands@.map_values(|c: CommandLine| command_view(c))
    }

    /// Everything but the files is as in `other`.
    pub open spec fn same_but_files(&self, other: &HostState) -> bool {
        &&& self.dry() == other.dry()
        &&& self.services() == other.services()
        &&& self.cache() == other.cache()
        &&& self.commands() == other.commands()
    }

    /// A host with nothing loaded.
    pub fn new(dry_run: bool) -> (r: HostState)
        ensures
            r.wf(),
            r.dry() == dry_run,
            r.files() == Map::<Seq<char>, Seq<char>>::empty(),
            r.services() == Map::<Seq<char>, bool>::empty(),
            r.cache() == CacheState::Absent,
            r.commands() == Seq::<(Seq<char>, Seq<Seq<char>>)>::empty(),
    {
        let r = HostState {
            dry_run,
            files: Vec::new(),
            services: Vec::new(),
            cache: CacheFile::Absent,
            commands: Vec::new(),
        };
        proof {
            assert(r.commands() =~= Seq::<(Seq<char>, Seq<Seq<char>>)>::empty());
        }
        r
    }

    /// Records a file that exists on the host.
    pub fn load_file(&mut self, path: &str, content: &str)
        requires
            old(self).wf(),
        ensures
            final(self).wf(),
            final(self).files() == old(self).files().insert(path@, content@),
            final(self).same_but_files(old(self)),
    {
        table_set(&mut self.files, path, content.to_owned());
    }

    /// Records whether a service is enabled.
    pub fn load_service(&mut self, name: &str, enabled: bool)
        requires
            old(self).wf(),
        ensures
            final(self).wf(),
            final(self).services() == old(self).services().insert(name@, enabled),
            final(self).files() == old(self).files(),
            final(self).cache() == old(self).cache(),
            final(self).commands() == old(self).commands(),
            final(self).dry() == old(self).dry(),
    {
        table_set(&mut self.services, name, enabled);
    }

    /// Records what the cache path holds.
    pub fn load_cache(&mut self, cache: CacheFile)
        requires
            old(self).wf(),
        ensures
            final(self).wf(),
            final(self).cache() == cache_state_of(cache),
            final(self).files() == old(self).files(),
            final(self).services() == old(self).services(),
            final(self).commands() == old(self).commands(),
            final(self).dry() == old(self).dry(),
    {
        self.cache = cache;
    }

    /// The existing files, as path and content pairs with distinct paths.
    pub fn file_entries(&self) -> (r: &Vec<(String, String)>)
        requires
            self.wf(),
        ensures
            keys_distinct(r@),
            table_map(r@) == self.files(),
    {
        &self.files
    }

    /// The known service states, as name and state pairs with distinct names.
    pub fn service_entries(&self) -> (r: &Vec<(String, bool)>)
        requires
            self.wf(),
        ensures
            keys_distinct(r@),
            table_map(r@) == self.services(),
    {
        &self.services
    }

    /// What the cache path holds.
    pub fn cache_file(&self) -> (r: &CacheFile)
        ensures
            cache_state_of(*r) == self.cache(),
    {
        &self.cache
    }

    /// Sets what the cache path holds (no change in dry-run mode).
    pub(crate) fn store_cache(&mut self, cache: CacheFile)
        requires
            old(self).wf(),
        ensures
            final(self).wf(),
            final(self).cache() == if old(self).dry() { old(self).cache() } else { cache_state_of(cache) },
            final(self).files() == old(self).files(),
            final(self).services() == old(self).services(),
            final(self).commands() == old(self).commands(),
            final(self).dry() == old(self).dry(),
    {
        if !self.dry_run {
            self.cache = cache;
        }
    }

    /// Takes the queued commands, in order, leaving none queued.
    pub fn take_commands(&mut self) -> (r: Vec<CommandLine>)
        ensures
            r@.map_values(|c: CommandLine| command_view(c)) == old(self).commands(),
            final(self).commands() == Seq::<(Seq<char>, Seq<Seq<char>>)>::empty(),
            final(self).files() == old(self).files(),
            final(self).services() == old(self).services(),
            final(self).cache() == old(self).cache(),
            final(self).dry() == old(self).dry(),
            old(self).wf() ==> final(self).wf(),
    {
        let mut r: Vec<CommandLine> = Vec::new();
        std::mem::swap(&mut r, &mut self.commands);
        proof {
            assert(self.commands() =~= Seq::<(Seq<char>, Seq<Seq<char>>)>::empty());
        }
        r
    }

    /// A copy of this host with the given preview setting.
    pub fn copy_as(&self, dry_run: bool) -> (r: HostState)
        requires
            self.wf(),
        ensures
            r.wf(),
            r.dry() == dry_run,
            r.files() == self.files(),
            r.services() == self.services(),
            r.cache() == self.cache(),
            r.commands() == self.commands(),
    {
        let mut commands: Vec<CommandLine> = Vec::new();
        let mut i: usize = 0;
        while i < self.commands.len()
            invariant
                i <= self.commands.len(),
                commands@.map_values(|c: CommandLine| command_view(c)) == self.commands@.take(i as int).map_values(
                    |c: CommandLine| command_view(c),
                ),
            decreases self.commands.len() - i,
        {
            let ghost before = commands@;
            let c = copy_command(&self.commands[i]);
            commands.push(c);
            proof {
                assert(commands@.map_values(|c: CommandLine| command_view(c)) =~= before.map_values(|c: CommandLine| command_view(c)).push(
                    command_view(self.commands@[i as int]),
                ));
                assert(self.commands@.take(i as int + 1).map_values(|c: CommandLine| command_view(c)) =~= self.commands@.take(
                    i as int,
                ).map_values(|c: CommandLine| command_view(c)).push(command_view(self.commands@[i as int])));
            }
            i += 1;
        }
        proof {
            assert(self.commands@.take(self.commands.len() as int) =~= self.commands@);
        }
        HostState {
            dry_run,
            files: table_copy_text(&self.files),
            services: table_copy_flags(&self.services),
            cache: copy_cache_file(&self.cache),
            commands,
        }
    }

    /// Queues a command.
    fn queue(&mut self, program: &str, args: Vec<String>)
        ensures
            final(self).commands() == old(self).commands().push((program@, args@.map_values(|a: String| a@))),
            final(self).files() == old(self).files(),
            final(self).services() == old(self).services(),
            final(self).cache() == old(self).cache(),
            final(self).dry() == old(self).dry(),
            old(self).wf() ==> final(self).wf(),
    {
        let ghost before = self.commands@;
        let c = CommandLine { program: program.to_owned(), args };
        self.commands.push(c);
        proof {
            assert(self.commands@ == before.push(c));
            assert(self.commands() =~= old(self).commands().push(command_view(c)));
        }
    }
}

/// The files to write back after an operation: those that `after` holds
/// and `before` lacks or holds with other content.
pub open spec fn file_writes(before: Map<Seq<char>, Seq<char>>, after: Map<Seq<char>, Seq<char>>) -> Map<Seq<char>, Seq<char>> {
    Map::new(|p: Seq<char>| after.dom().contains(p) && !(before.dom().contains(p) && before[p] == after[p]), |p: Seq<char>| after[p])
}

/// The service states to apply after an operation: those that `after` knows
/// and `before` does not know or knows otherwise.
pub open spec fn service_updates(before: Map<Seq<char>, bool>, after: Map<Seq<char>, bool>) -> Map<Seq<char>, bool> {
    Map::new(|n: Seq<char>| after.dom().contains(n) && !(before.dom().contains(n) && before[n] == after[n]), |n: Seq<char>| after[n])
}

/// The keys of the first `i` entries of a table with distinct keys, and the
/// next one, which is not among them.
proof fn lemma_table_step<V: View>(t: Seq<(String, V)>, i: int)
    requires
        keys_distinct(t),
        0 <= i < t.len(),
    ensures
        table_map(t.take(i + 1)) == table_map(t.take(i)).insert(t[i].0@, t[i].1@),
        !table_map(t.take(i)).dom().contains(t[i].0@),
{
    assert(t.take(i + 1).drop_last() =~= t.take(i));
    crate::table::lemma_table_dom(t.take(i), t[i].0@);
    if table_map(t.take(i)).dom().contains(t[i].0@) {
        let j = choose|j: int| 0 <= j < t.take(i).len() && #[trigger] t.take(i)[j].0@ == t[i].0@;
        assert(t[j].0@ != t[i].0@);
    }
}

/// The files to write back: every file of `after` that `before` lacks or
/// holds with other content (see `file_writes`), as a table.
pub fn files_to_write(before: &Vec<(String, String)>, after: &Vec<(String, String)>) -> (r: Vec<(String, String)>)
    requires
        keys_distinct(before@),
        keys_distinct(after@),
    ensures
        keys_distinct(r@),
        table_map(r@) == file_writes(table_map(before@), table_map(after@)),
{
    let ghost b = table_map(before@);
    let mut out: Vec<(String, String)> = Vec::new();
    let mut i: usize = 0;
    proof {
        assert(table_map(out@) =~= file_writes(b, table_map(after@.take(0))));
    }
    while i < after.len()
        invariant
            i <= after.len(),
            keys_distinct(before@),
            keys_distinct(after@),
            b == table_map(before@),
            keys_distinct(out@),
            table_map(out@) == file_writes(b, table_map(after@.take(i as int))),
        decreases after.len() - i,
    {
        let entry = &after[i];
        proof {
            lemma_table_step(after@, i as int);
        }
        let ghost a0 = table_map(after@.take(i as int));
        let ghost a1 = table_map(after@.take(i as int + 1));
        let same = match table_get(before, entry.0.as_str()) {
            Some(c) => *c == entry.1,
            None => false,
        };
        if !same {
            table_set(&mut out, entry.0.as_str(), entry.1.clone());
            proof {
                assert(file_writes(b, a1) =~= file_writes(b, a0).insert(entry.0@, entry.1@));
            }
        } else {
            proof {
                assert(file_writes(b, a1) =~= file_writes(b, a0));
            }
        }
        i += 1;
    }
    proof {
        assert(after@.take(after.len() as int) =~= after@);
    }
    out
}

/// The service states to apply: every state of `after` that `before` does
/// not know or knows otherwise (see `service_updates`), as a table.
pub fn services_to_apply(before: &Vec<(String, bool)>, after: &Vec<(String, bool)>) -> (r: Vec<(String, bool)>)
    requires
        keys_distinct(before@),
        keys_distinct(after@),
    ensures
        keys_distinct(r@),
        table_map(r@) == service_updates(table_map(before@), table_map(after@)),
{
    let ghost b = table_map(before@);
    let mut out: Vec<(String, bool)> = Vec::new();
    let mut i: usize = 0;
    proof {
        assert(table_map(out@) =~= service_updates(b, table_map(after@.take(0))));
    }
    while i < after.len()
        invariant
            i <= after.len(),
            keys_distinct(before@),
            keys_distinct(after@),
            b == table_map(before@),
            keys_distinct(out@),
            table_map(out@) == service_updates(b, table_map(after@.take(i as int))),
        decreases after.len() - i,
    {
        let entry = &after[i];
        proof {
            lemma_table_step(after@, i as int);
        }
        let ghost a0 = table_map(after@.take(i as int));
        let ghost a1 = table_map(after@.take(i as int + 1));
        let same = match table_get(before, entry.0.as_str()) {
            Some(v) => *v == entry.1,
            None => false,
        };
        if !same {
            table_set(&mut out, entry.0.as_str(), entry.1);
            proof {
                assert(service_updates(b, a1) =~= service_updates(b, a0).insert(entry.0@, entry.1@));
            }
        } else {
            proof {
                assert(service_updates(b, a1) =~= service_updates(b, a0));
            }
        }
        i += 1;
    }
    proof {
        assert(after@.take(after.len() as int) =~= after@);
    }
    out
}

/// The texts of a list of strings, as a set.
pub open spec fn text_set(v: Seq<String>) -> Set<Seq<char>> {
    Set::new(|p: Seq<char>| exists|k: int| 0 <= k < v.len() && #[trigger] v[k]@ == p)
}

/// The files to remove: the paths of `before` that `after` lacks, each
/// once.
pub fn files_to_remove(before: &Vec<(String, String)>, after: &Vec<(String, String)>) -> (r: Vec<String>)
    requires
        keys_distinct(before@),
        keys_distinct(after@),
    ensures
        forall|i: int, j: int| 0 <= i < j < r@.len() ==> #[trigger] r@[i]@ != #[trigger] r@[j]@,
        text_set(r@) == table_map(before@).dom().difference(table_map(after@).dom()),
{
    let ghost a = table_map(after@);
    let mut out: Vec<String> = Vec::new();
    let mut i: usize = 0;
    proof {
        assert(text_set(out@) =~= table_map(before@.take(0)).dom().difference(a.dom()));
    }
    while i < before.len()
        invariant
            i <= before.len(),
            keys_distinct(before@),
            keys_distinct(after@),
            a == table_map(after@),
            forall|x: int, y: int| 0 <= x < y < out@.len() ==> #[trigger] out@[x]@ != #[trigger] out@[y]@,
            text_set(out@) == table_map(before@.take(i as int)).dom().difference(a.dom()),
        decreases before.len() - i,
    {
        let entry = &before[i];
        proof {
            lemma_table_step(before@, i as int);
        }
        let ghost prev = out@;
        let ghost next = table_map(before@.take(i as int + 1)).dom().difference(a.dom());
        if table_get(after, entry.0.as_str()).is_none() {
            out.push(entry.0.clone());
            proof {
                assert forall|p: Seq<char>| text_set(out@).contains(p) <==> next.contains(p) by {
                    if text_set(out@).contains(p) {
                        let k = choose|k: int| 0 <= k < out@.len() && #[trigger] out@[k]@ == p;
                        if k < prev.len() {
                            assert(prev[k]@ == p);
                            assert(text_set(prev).contains(p));
                        }
                    }
                    if next.contains(p) {
                        if p == entry.0@ {
                            assert(out@[prev.len() as int]@ == p);
                        } else {
                            assert(text_set(prev).contains(p));
                            let k = choose|k: int| 0 <= k < prev.len() && #[trigger] prev[k]@ == p;
                            assert(out@[k]@ == p);
                        }
                    }
                }
                assert(text_set(out@) =~= next);
                assert forall|x: int, y: int| 0 <= x < y < out@.len() implies #[trigger] out@[x]@ != #[trigger] out@[y]@ by {
                    if y == prev.len() {
                        assert(out@[x] == prev[x]);
                        if prev[x]@ == entry.0@ {
                            assert(text_set(prev).contains(entry.0@));
                        }
                    } else {
                        assert(out@[x] == prev[x] && out@[y] == prev[y]);
                    }
                }
            }
        } else {
            proof {
                assert(text_set(out@) =~= next);
            }
        }
        i += 1;
    }
    proof {
        assert(before@.take(before.len() as int) =~= before@);
    }
    out
}

/// The file at `path`, if it exists.
pub open spec fn file_at(files: Map<Seq<char>, Seq<char>>, path: Seq<char>) -> Option<Seq<char>> {
    if files.dom().contains(path) {
        Some(files[path])
    } else {
        None
    }
}

/// Writes `content` to `path` (no change in dry-run mode).
pub fn write_file(host: &mut HostState, path: &str, content: &str) -> (r: Result<(), GswitchError>)
    requires
        old(host).wf(),
    ensures
        r is Ok,
        final(host).wf(),
        final(host).same_but_files(old(host)),
        final(host).files() == if old(host).dry() {
            old(host).files()
        } else {
            old(host).files().insert(path@, content@)
        },
{
    if !host.dry_run {
        table_set(&mut host.files, path, content.to_owned());
    }
    Ok(())
}

/// Removes the file at `path`; a missing file is no error (no change in
/// dry-run mode).
pub fn remove_file(host: &mut HostState, path: &str) -> (r: Result<(), GswitchError>)
    requires
        old(host).wf(),
    ensures
        r is Ok,
        final(host).wf(),
        final(host).same_but_files(old(host)),
        final(host).files() == if old(host).dry() {
            old(host).files()
        } else {
            old(host).files().remove(path@)
        },
{
    if !host.dry_run {
        table_remove(&mut host.files, path);
    }
    Ok(())
}

/// Whether a file exists at `path`.
pub fn file_exists(host: &HostState, path: &str) -> (r: bool)
    requires
        host.wf(),
    ensures
        r == host.files().dom().contains(path@),
{
    table_get(&host.files, path).is_some()
}

/// The content of the file at `path`.
pub fn read_file(host: &HostState, path: &str) -> (r: Result<String, GswitchError>)
    requires
        host.wf(),
    ensures
        r matches Ok(s) ==> file_at(host.files(), path@) == Some(s@),
        r is Err ==> file_at(host.files(), path@) is None,
        r matches Err(e) ==> (e matches GswitchError::Gpu(m) && m@ == "读取 "@ + path@ + " 失败: 文件不存在"@),
{
    match table_get(&host.files, path) {
        Some(c) => Ok(c.clone()),
        None => {
            let mut msg = String::new();
            push_str(&mut msg, "读取 ");
            push_str(&mut msg, path);
            push_str(&mut msg, " 失败: 文件不存在");
            proof {
                assert(msg@ =~= "读取 "@ + path@ + " 失败: 文件不存在"@);
            }
            Err(GswitchError::Gpu(msg))
        },
    }
}

/// Whether a service is enabled, if known (never known in dry-run mode).
pub fn service_is_enabled(host: &HostState, name: &str) -> (r: Option<bool>)
    requires
        host.wf(),
    ensures
        r == if host.dry() || !host.services().dom().contains(name@) {
            None
        } else {
            Some(host.services()[name@])
        },
{
    if host.dry_run {
        return None;
    }
    match table_get(&host.services, name) {
        Some(b) => Some(*b),
        None => None,
    }
}

/// Whether `systemctl is-enabled` reports the service as enabled: its
/// output, trimmed, is `enabled` or `static`.
pub fn is_enabled_reply(stdout: &str) -> (r: bool)
    ensures
        r == (trim(stdout@) == "enabled"@ || trim(stdout@) == "static"@),
{
    let t = trim_chars(&chars_of(stdout));
    chars_eq_str(&t, "enabled") || chars_eq_str(&t, "static")
}

/// Enables or disables a service (no change in dry-run mode).
pub fn toggle_service(host: &mut HostState, name: &str, enable: bool) -> (r: Result<(), GswitchError>)
    requires
        old(host).wf(),
    ensures
        r is Ok,
        final(host).wf(),
        final(host).services() == if old(host).dry() {
            old(host).services()
        } else {
            old(host).services().insert(name@, enable)
        },
        final(host).files() == old(host).files(),
        final(host).cache() == old(host).cache(),
        final(host).commands() == old(host).commands(),
        final(host).dry() == old(host).dry(),
{
    if !host.dry_run {
        table_set(&mut host.services, name, enable);
    }
    Ok(())
}


/// The set of paths named in a list.
pub open spec fn path_set(paths: Seq<&'static str>) -> Set<Seq<char>> {
    Set::new(|p: Seq<char>| exists|i: int| 0 <= i < paths.len() && #[trigger] paths[i]@ == p)
}

/// A line of the initramfs-tools module list that `cleanup` keeps: not the
/// `vfio_pci` module and not a gswitch comment.
pub open spec fn keep_module_line(l: Seq<char>) -> bool {
    trim(l) != "vfio_pci"@ && !starts_with(trim(l), "# Added by gswitch"@)
}

/// The kept lines, in order.
pub open spec fn kept_module_lines(ls: Seq<Seq<char>>) -> Seq<Seq<char>>
    decreases ls.len(),
{
    if ls.len() == 0 {
        Seq::empty()
    } else if keep_module_line(ls.last()) {
        kept_module_lines(ls.drop_last()).push(ls.last())
    } else {
        kept_module_lines(ls.drop_last())
    }
}

/// Lines joined with `'\n'` between them.
pub open spec fn join_lines(ls: Seq<Seq<char>>) -> Seq<char>
    decreases ls.len(),
{
    if ls.len() == 0 {
        Seq::empty()
    } else if ls.len() == 1 {
        ls[0]
    } else {
        join_lines(ls.drop_last()) + "\n"@ + ls.last()
    }
}

/// The module list without the VFIO lines, each kept line ended by `'\n'`.
pub open spec fn without_vfio_modules(content: Seq<char>) -> Seq<char> {
    join_lines(kept_module_lines(lines_of(content))) + "\n"@
}

/// Pieces of a text without the character `x` have no `x` either.
proof fn lemma_split_pieces_lack(s: Seq<char>, c: char, x: char)
    requires
        x != c,
        forall|i: int| 0 <= i < s.len() ==> s[i] != x,
    ensures
        forall|k: int, i: int| 0 <= k < split_on(s, c).len() && 0 <= i < split_on(s, c)[k].len() ==> split_on(s, c)[k][i] != x,
    decreases s.len(),
{
    crate::text::lemma_split_nonempty(s, c);
    if s.len() > 0 {
        lemma_split_pieces_lack(s.drop_last(), c, x);
        crate::text::lemma_split_nonempty(s.drop_last(), c);
        let p = split_on(s.drop_last(), c);
        if s.last() != c {
            let q = p.update(p.len() - 1, p.last().push(s.last()));
            assert forall|k: int, i: int| 0 <= k < q.len() && 0 <= i < q[k].len() implies q[k][i] != x by {
                if k == p.len() - 1 && i == p.last().len() {
                    assert(q[k][i] == s.last());
                } else if k == p.len() - 1 {
                    assert(q[k][i] == p[k][i]);
                }
            }
        }
    }
}

/// Joining the pieces of a text split at newlines gives the text back.
proof fn lemma_join_split(s: Seq<char>)
    ensures
        join_lines(split_on(s, '\n')) == s,
    decreases s.len(),
{
    reveal_strlit("\n");
    crate::text::lemma_split_nonempty(s, '\n');
    if s.len() == 0 {
        assert(split_on(s, '\n') =~= seq![Seq::<char>::empty()]);
        assert(s =~= Seq::<char>::empty());
    } else {
        lemma_join_split(s.drop_last());
        crate::text::lemma_split_nonempty(s.drop_last(), '\n');
        let p = split_on(s.drop_last(), '\n');
        if s.last() == '\n' {
            let q = p.push(Seq::<char>::empty());
            assert(q.drop_last() =~= p);
            assert(join_lines(q) == join_lines(p) + "\n"@ + Seq::<char>::empty());
            assert(s =~= s.drop_last() + "\n"@ + Seq::<char>::empty());
        } else {
            let q = p.update(p.len() - 1, p.last().push(s.last()));
            if p.len() == 1 {
                assert(join_lines(p) == p[0]);
                assert(q[0] =~= s);
            } else {
                assert(q.drop_last() =~= p.drop_last());
                assert(join_lines(q) == join_lines(p.drop_last()) + "\n"@ + p.last().push(s.last()));
                assert(join_lines(p) == join_lines(p.drop_last()) + "\n"@ + p.last());
                assert(join_lines(q) =~= join_lines(p).push(s.last()));
                assert(s =~= s.drop_last().push(s.last()));
            }
        }
    }
}

/// The kept lines of two runs of lines are the kept lines of each.
proof fn lemma_kept_concat(a: Seq<Seq<char>>, b: Seq<Seq<char>>)
    ensures
        kept_module_lines(a + b) == kept_module_lines(a) + kept_module_lines(b),
    decreases b.len(),
{
    if b.len() == 0 {
        assert(a + b =~= a);
        assert(kept_module_lines(a) + Seq::<Seq<char>>::empty() =~= kept_module_lines(a));
    } else {
        lemma_kept_concat(a, b.drop_last());
        assert((a + b).drop_last() =~= a + b.drop_last());
        assert((a + b).last() == b.last());
        if keep_module_line(b.last()) {
            assert(kept_module_lines(a) + kept_module_lines(b.drop_last()).push(b.last()) =~= (kept_module_lines(a)
                + kept_module_lines(b.drop_last())).push(b.last()));
        }
    }
}

/// When every line is kept, the kept lines are all of them.
proof fn lemma_kept_all(a: Seq<Seq<char>>)
    requires
        forall|i: int| 0 <= i < a.len() ==> keep_module_line(#[trigger] a[i]),
    ensures
        kept_module_lines(a) == a,
    decreases a.len(),
{
    if a.len() > 0 {
        lemma_kept_all(a.drop_last());
        assert(a.drop_last().push(a.last()) =~= a);
    }
}

/// A module list that `cleanup` leaves as it is: one final newline after
/// its last non-blank text, no carriage return, and no line that cleanup
/// takes out (the `vfio_pci` module or a gswitch comment).
pub open spec fn plain_module_list(c: Seq<char>) -> bool {
    &&& trim_end(c).len() > 0
    &&& c == trim_end(c) + "\n"@
    &&& forall|i: int| 0 <= i < c.len() ==> c[i] != '\r'
    &&& forall|i: int| 0 <= i < lines_of(c).len() ==> keep_module_line(#[trigger] lines_of(c)[i])
}

/// The lines of a text that ends with a newline and has no carriage
/// return: its pieces before the final newline.
proof fn lemma_lines_plain(c: Seq<char>)
    requires
        c.len() > 0,
        c.last() == '\n',
        forall|i: int| 0 <= i < c.len() ==> c[i] != '\r',
    ensures
        lines_of(c) == split_on(c.drop_last(), '\n'),
{
    let p = split_on(c.drop_last(), '\n');
    lemma_split_pieces_lack(c.drop_last(), '\n', '\r');
    assert forall|k: int| 0 <= k < p.len() implies strip_cr(p[k]) == p[k] by {
        if p[k].len() > 0 {
            assert(p[k][p[k].len() - 1] != '\r');
        }
    }
    assert(p.map_values(|l: Seq<char>| strip_cr(l)) =~= p);
}

/// `cleanup` leaves a plain module list as it is.
pub proof fn lemma_cleanup_keeps_plain(c: Seq<char>)
    requires
        plain_module_list(c),
    ensures
        without_vfio_modules(c) == c,
{
    reveal_strlit("\n");
    lemma_lines_plain(c);
    lemma_kept_all(lines_of(c));
    lemma_join_split(c.drop_last());
    assert(c =~= c.drop_last() + "\n"@);
}

/// The lines that adding vfio-pci appends are both taken out by `cleanup`.
proof fn lemma_vfio_lines_dropped()
    ensures
        lines_of(INITRAMFS_VFIO_LINES@).len() == 2,
        kept_module_lines(lines_of(INITRAMFS_VFIO_LINES@)) == Seq::<Seq<char>>::empty(),
{
    reveal_strlit("# Added by gswitch for VFIO passthrough\nvfio_pci\n");
    reveal_strlit("# Added by gswitch for VFIO passthrough");
    reveal_strlit("# Added by gswitch");
    reveal_strlit("vfio_pci");
    reveal_strlit("\n");
    reveal_with_fuel(crate::text::trim_start, 2);
    reveal_with_fuel(crate::text::trim_end, 2);
    let l = INITRAMFS_VFIO_LINES@;
    let h = "# Added by gswitch for VFIO passthrough"@;
    let v = "vfio_pci"@;
    assert(l.drop_last() =~= h.push('\n') + v);
    assert forall|i: int| 0 <= i < h.len() implies h[i] != '\n' by {}
    assert forall|i: int| 0 <= i < v.len() implies v[i] != '\n' by {}
    crate::text::lemma_split_no_sep(h, '\n');
    crate::text::lemma_split_no_sep(v, '\n');
    crate::text::lemma_split_join(h, v, '\n');
    assert forall|i: int| 0 <= i < l.len() implies l[i] != '\r' by {}
    lemma_lines_plain(l);
    let ls = lines_of(l);
    assert(ls =~= seq![h, v]);
    assert(trim(h) =~= h);
    assert(trim(v) =~= v);
    assert(h.take(18) =~= "# Added by gswitch"@);
    assert(!keep_module_line(h));
    assert(!keep_module_line(v));
    assert(seq![h, v].drop_last() =~= seq![h]);
    assert(seq![h].drop_last() =~= Seq::<Seq<char>>::empty());
    assert(kept_module_lines(Seq::<Seq<char>>::empty()) == Seq::<Seq<char>>::empty());
    assert(kept_module_lines(seq![h]) == kept_module_lines(Seq::<Seq<char>>::empty()));
    assert(kept_module_lines(seq![h, v]) == kept_module_lines(seq![h]));
    assert(kept_module_lines(ls) == Seq::<Seq<char>>::empty());
}

/// `cleanup` takes out exactly the lines that adding vfio-pci appended to a
/// plain module list: the list comes back as it was.
pub proof fn lemma_cleanup_undoes_vfio_lines(c: Seq<char>)
    requires
        plain_module_list(c),
    ensures
        without_vfio_modules(with_vfio_modules(c)) == c,
{
    reveal_strlit("\n");
    let base = trim_end(c);
    let lines = INITRAMFS_VFIO_LINES@;
    let w = with_vfio_modules(c);
    assert(w == base + "\n"@ + lines);
    assert(w =~= c + lines);
    lemma_vfio_lines_dropped();
    reveal_strlit("# Added by gswitch for VFIO passthrough\nvfio_pci\n");
    assert(lines.len() > 0 && lines.last() == '\n');
    assert(w.drop_last() =~= c.drop_last().push('\n') + lines.drop_last());
    crate::text::lemma_split_join(c.drop_last(), lines.drop_last(), '\n');
    assert(lines_of(w) =~= lines_of(c) + lines_of(lines));
    lemma_kept_concat(lines_of(c), lines_of(lines));
    assert(kept_module_lines(lines_of(w)) =~= kept_module_lines(lines_of(c)));
    lemma_cleanup_keeps_plain(c);
}

/// The initramfs-tools module list is not among the files that `cleanup`
/// removes (it only loses its VFIO lines).
proof fn lemma_modules_list_not_removed()
    ensures
        !path_set(CLEANUP_PATHS@).contains(INITRAMFS_TOOLS_MODULES_PATH@),
{
    reveal_strlit("/etc/modprobe.d/gswitch-gpu.conf");
    reveal_strlit("/etc/modprobe.d/gswitch-nvidia-modeset.conf");
    reveal_strlit("/etc/udev/rules.d/50-gswitch-remove-nvidia.rules");
    reveal_strlit("/etc/udev/rules.d/80-gswitch-nvidia-pm.rules");
    reveal_strlit("/etc/prime-discrete");
    reveal_strlit("/etc/environment.d/gswitch-nvidia.conf");
    reveal_strlit("/etc/X11/xorg.conf.d/11-nvidia-discrete.conf");
    reveal_strlit("/usr/share/X11/xorg.conf.d/11-nvidia-discrete.conf");
    reveal_strlit("/etc/dracut.conf.d/gswitch-vfio.conf");
    reveal_strlit("/etc/mkinitcpio.conf.d/gswitch-vfio.conf");
    reveal_strlit("/etc/initramfs-tools/modules");
    assert forall|i: int| 0 <= i < CLEANUP_PATHS@.len() implies #[trigger] CLEANUP_PATHS@[i]@ != INITRAMFS_TOOLS_MODULES_PATH@ by {
        assert(CLEANUP_PATHS@[i]@.len() != INITRAMFS_TOOLS_MODULES_PATH@.len());
    }
}

/// On an update-initramfs system, `cleanup` after adding vfio-pci to the
/// initramfs gives the module list back as it was, when it is a plain
/// list: the VFIO lines that were appended are taken out and every other
/// line is kept, in order.
pub proof fn lemma_cleanup_after_vfio_add(tools: InitramfsTools, files: Map<Seq<char>, Seq<char>>)
    requires
        !tools.usr_bin_dracut,
        tools.usr_sbin_update_initramfs || tools.sbin_update_initramfs,
        files.dom().contains(INITRAMFS_TOOLS_MODULES_PATH@),
        plain_module_list(files[INITRAMFS_TOOLS_MODULES_PATH@]),
    ensures
        file_at(cleaned_files(vfio_added_files(tools, files)), INITRAMFS_TOOLS_MODULES_PATH@) == Some(
            files[INITRAMFS_TOOLS_MODULES_PATH@],
        ),
{
    let c = files[INITRAMFS_TOOLS_MODULES_PATH@];
    lemma_modules_list_not_removed();
    if has_sub(c, "vfio_pci"@) {
        lemma_cleanup_keeps_plain(c);
    } else {
        lemma_cleanup_undoes_vfio_lines(c);
    }
}

/// The files after `cleanup`: every generated file removed and the VFIO
/// lines taken out of the initramfs-tools module list.
pub open spec fn cleaned_files(files: Map<Seq<char>, Seq<char>>) -> Map<Seq<char>, Seq<char>> {
    let m = files.remove_keys(path_set(CLEANUP_PATHS@));
    if m.dom().contains(INITRAMFS_TOOLS_MODULES_PATH@) {
        m.insert(INITRAMFS_TOOLS_MODULES_PATH@, without_vfio_modules(m[INITRAMFS_TOOLS_MODULES_PATH@]))
    } else {
        m
    }
}

/// After `cleanup` none of the generated files exists: not one of the ten
/// cleanup paths, whatever the host held before (the modprobe, modeset,
/// udev, PRIME, environment, X11 and both initramfs VFIO files).
pub proof fn lemma_cleanup_removes_generated_files(files: Map<Seq<char>, Seq<char>>)
    ensures
        forall|i: int| 0 <= i < CLEANUP_PATHS@.len() ==> file_at(cleaned_files(files), #[trigger] CLEANUP_PATHS@[i]@) is None,
        file_at(cleaned_files(files), MODPROBE_GPU_PATH@) is None,
        file_at(cleaned_files(files), MODESET_PATH@) is None,
        file_at(cleaned_files(files), UDEV_INTEGRATED_PATH@) is None,
        file_at(cleaned_files(files), UDEV_PM_PATH@) is None,
        file_at(cleaned_files(files), PRIME_DISCRETE_PATH@) is None,
        file_at(cleaned_files(files), NV_ENV_PATH@) is None,
        file_at(cleaned_files(files), XORG_CONF_NVIDIA_PATH@) is None,
        file_at(cleaned_files(files), XORG_CONF_NVIDIA_FALLBACK_PATH@) is None,
        file_at(cleaned_files(files), DRACUT_VFIO_CONF_PATH@) is None,
        file_at(cleaned_files(files), MKINITCPIO_VFIO_CONF_PATH@) is None,
{
    lemma_modules_list_not_removed();
    let paths = path_set(CLEANUP_PATHS@);
    assert forall|i: int| 0 <= i < CLEANUP_PATHS@.len() implies file_at(cleaned_files(files), #[trigger] CLEANUP_PATHS@[i]@) is None by {
        assert(paths.contains(CLEANUP_PATHS@[i]@));
    }
    assert(CLEANUP_PATHS@[0] == MODPROBE_GPU_PATH);
    assert(CLEANUP_PATHS@[1] == MODESET_PATH);
    assert(CLEANUP_PATHS@[2] == UDEV_INTEGRATED_PATH);
    assert(CLEANUP_PATHS@[3] == UDEV_PM_PATH);
    assert(CLEANUP_PATHS@[4] == PRIME_DISCRETE_PATH);
    assert(CLEANUP_PATHS@[5] == NV_ENV_PATH);
    assert(CLEANUP_PATHS@[6] == XORG_CONF_NVIDIA_PATH);
    assert(CLEANUP_PATHS@[7] == XORG_CONF_NVIDIA_FALLBACK_PATH);
    assert(CLEANUP_PATHS@[8] == DRACUT_VFIO_CONF_PATH);
    assert(CLEANUP_PATHS@[9] == MKINITCPIO_VFIO_CONF_PATH);
}

/// Takes the VFIO lines out of the initramfs-tools module list, if it
/// exists.
fn remove_vfio_from_initramfs_modules(host: &mut HostState) -> (r: Result<(), GswitchError>)
    requires
        old(host).wf(),
    ensures
        r is Ok,
        final(host).wf(),
        final(host).same_but_files(old(host)),
        final(host).files() == if old(host).dry() || !old(host).files().dom().contains(INITRAMFS_TOOLS_MODULES_PATH@) {
            old(host).files()
        } else {
            old(host).files().insert(INITRAMFS_TOOLS_MODULES_PATH@, without_vfio_modules(old(host).files()[INITRAMFS_TOOLS_MODULES_PATH@]))
        },
{
    if !file_exists(host, INITRAMFS_TOOLS_MODULES_PATH) {
        return Ok(());
    }
    let content = read_file(host, INITRAMFS_TOOLS_MODULES_PATH)?;
    let cv = chars_of(content.as_str());
    let lines = lines_chars(&cv);
    let mut out = String::new();
    let mut any = false;
    let mut k: usize = 0;
    proof {
        assert(lines_of(cv@).take(0) =~= Seq::<Seq<char>>::empty());
    }
    while k < lines.len()
        invariant
            k <= lines.len(),
            views(lines@) == lines_of(cv@),
            any == (kept_module_lines(lines_of(cv@).take(k as int)).len() > 0),
            out@ == join_lines(kept_module_lines(lines_of(cv@).take(k as int))),
        decreases lines.len() - k,
    {
        let ghost ls = lines_of(cv@);
        proof {
            assert(views(lines@)[k as int] == lines@[k as int]@);
            assert(ls.take(k as int + 1).drop_last() =~= ls.take(k as int));
            assert(ls.take(k as int + 1).last() == ls[k as int]);
        }
        let t = trim_chars(&lines[k]);
        let ghost prev = kept_module_lines(ls.take(k as int));
        if !chars_eq_str(&t, "vfio_pci") && !starts_with_str(&t, "# Added by gswitch") {
            proof {
                assert(keep_module_line(ls[k as int]));
                assert(kept_module_lines(ls.take(k as int + 1)) == prev.push(ls[k as int]));
                assert(prev.push(ls[k as int]).drop_last() =~= prev);
            }
            if any {
                push_str(&mut out, "\n");
            } else {
                proof {
                    assert(prev =~= Seq::<Seq<char>>::empty());
                    assert(out@ =~= Seq::<char>::empty());
                }
            }
            push_chars(&mut out, &lines[k]);
            any = true;
        } else {
            proof {
                assert(!keep_module_line(ls[k as int]));
                assert(kept_module_lines(ls.take(k as int + 1)) == prev);
            }
        }
        k += 1;
    }
    proof {
        assert(lines_of(cv@).take(lines.len() as int) =~= lines_of(cv@));
    }
    push_str(&mut out, "\n");
    let same = chars_eq(&chars_of(out.as_str()), &cv);
    if !same {
        write_file(host, INITRAMFS_TOOLS_MODULES_PATH, out.as_str())?;
    } else {
        proof {
            assert(old(host).files().insert(INITRAMFS_TOOLS_MODULES_PATH@, out@) =~= old(host).files());
        }
    }
    Ok(())
}

/// Removes every generated configuration file and the VFIO lines of the
/// initramfs-tools module list.
pub fn cleanup(host: &mut HostState) -> (r: Result<(), GswitchError>)
    requires
        old(host).wf(),
    ensures
        r is Ok,
        final(host).wf(),
        final(host).same_but_files(old(host)),
        final(host).files() == if old(host).dry() { old(host).files() } else { cleaned_files(old(host).files()) },
{
    let ghost start = host.files();
    let mut k: usize = 0;
    while k < 10
        invariant
            k <= 10,
            host.wf(),
            host.same_but_files(old(host)),
            host.files() == if host.dry() {
                start
            } else {
                start.remove_keys(path_set(CLEANUP_PATHS@.take(k as int)))
            },
        decreases 10 - k,
    {
        let _ = remove_file(host, CLEANUP_PATHS[k]);
        proof {
            if !host.dry() {
                assert(path_set(CLEANUP_PATHS@.take(k as int + 1)) =~= path_set(CLEANUP_PATHS@.take(k as int)).insert(CLEANUP_PATHS@[k as int]@)) by {
                    assert forall|p: Seq<char>| path_set(CLEANUP_PATHS@.take(k as int + 1)).contains(p) <==> path_set(CLEANUP_PATHS@.take(k as int)).insert(CLEANUP_PATHS@[k as int]@).contains(p) by {
                        if path_set(CLEANUP_PATHS@.take(k as int + 1)).contains(p) {
                            let i = choose|i: int| 0 <= i < k + 1 && #[trigger] CLEANUP_PATHS@.take(k as int + 1)[i]@ == p;
                            if i < k {
                                assert(CLEANUP_PATHS@.take(k as int)[i]@ == p);
                            }
                        }
                        if path_set(CLEANUP_PATHS@.take(k as int)).contains(p) {
                            let i = choose|i: int| 0 <= i < k && #[trigger] CLEANUP_PATHS@.take(k as int)[i]@ == p;
                            assert(CLEANUP_PATHS@.take(k as int + 1)[i]@ == p);
                        }
                        if p == CLEANUP_PATHS@[k as int]@ {
                            assert(CLEANUP_PATHS@.take(k as int + 1)[k as int]@ == p);
                        }
                    }
                }
            }
        }
        k += 1;
        proof {
            if !host.dry() {
                assert(host.files() =~= start.remove_keys(path_set(CLEANUP_PATHS@.take(k as int))));
            }
        }
    }
    proof {
        assert(CLEANUP_PATHS@.take(10) =~= CLEANUP_PATHS@);
    }
    remove_vfio_from_initramfs_modules(host)
}


/// The initramfs-tools module list with the VFIO lines appended (after the
/// existing text without its trailing whitespace, on a new line).
pub open spec fn with_vfio_modules(existing: Seq<char>) -> Seq<char> {
    let base = trim_end(existing);
    if base.len() == 0 {
        INITRAMFS_VFIO_LINES@
    } else {
        base + "\n"@ + INITRAMFS_VFIO_LINES@
    }
}

/// The files after adding vfio-pci to the initramfs: a dracut drop-in when
/// `/usr/bin/dracut` exists; otherwise, with update-initramfs, the module
/// list gains the VFIO lines unless it mentions `vfio_pci`; otherwise a
/// mkinitcpio drop-in when mkinitcpio exists; otherwise nothing.
pub open spec fn vfio_added_files(tools: InitramfsTools, files: Map<Seq<char>, Seq<char>>) -> Map<Seq<char>, Seq<char>> {
    if tools.usr_bin_dracut {
        files.insert(DRACUT_VFIO_CONF_PATH@, DRACUT_VFIO_CONTENT@)
    } else if tools.usr_sbin_update_initramfs || tools.sbin_update_initramfs {
        let existing = match file_at(files, INITRAMFS_TOOLS_MODULES_PATH@) {
            Some(c) => c,
            None => Seq::empty(),
        };
        if has_sub(existing, "vfio_pci"@) {
            files
        } else {
            files.insert(INITRAMFS_TOOLS_MODULES_PATH@, with_vfio_modules(existing))
        }
    } else if tools.usr_bin_mkinitcpio {
        files.insert(MKINITCPIO_VFIO_CONF_PATH@, MKINITCPIO_VFIO_CONTENT@)
    } else {
        files
    }
}

/// Adds the vfio-pci driver to the initramfs so that it binds before the
/// NVIDIA driver (see `vfio_added_files`).
pub fn add_vfio_to_initramfs(sys: &SystemInfo, host: &mut HostState) -> (r: Result<(), GswitchError>)
    requires
        old(host).wf(),
    ensures
        r is Ok,
        final(host).wf(),
        final(host).same_but_files(old(host)),
        final(host).files() == if old(host).dry() { old(host).files() } else { vfio_added_files(sys.tools, old(host).files()) },
{
    if sys.tools.usr_bin_dracut {
        return write_file(host, DRACUT_VFIO_CONF_PATH, DRACUT_VFIO_CONTENT);
    }
    if sys.tools.usr_sbin_update_initramfs || sys.tools.sbin_update_initramfs {
        let existing = match read_file(host, INITRAMFS_TOOLS_MODULES_PATH) {
            Ok(c) => chars_of(c.as_str()),
            Err(_) => Vec::new(),
        };
        proof {
            if file_at(host.files(), INITRAMFS_TOOLS_MODULES_PATH@) is None {
                assert(existing@ =~= Seq::<char>::empty());
            }
        }
        if !contains_str(&existing, "vfio_pci") {
            let base = trim_end_chars(&existing);
            let mut content = string_of(&base);
            if base.len() > 0 {
                push_str(&mut content, "\n");
            } else {
                proof {
                    assert(content@ =~= Seq::<char>::empty());
                }
            }
            push_str(&mut content, INITRAMFS_VFIO_LINES);
            return write_file(host, INITRAMFS_TOOLS_MODULES_PATH, content.as_str());
        }
        return Ok(());
    }
    if sys.tools.usr_bin_mkinitcpio {
        return write_file(host, MKINITCPIO_VFIO_CONF_PATH, MKINITCPIO_VFIO_CONTENT);
    }
    Ok(())
}

/// The module list with the VFIO lines appended names `vfio_pci`.
proof fn lemma_vfio_modules_named(existing: Seq<char>)
    ensures
        has_sub(with_vfio_modules(existing), "vfio_pci"@),
{
    reveal_strlit("# Added by gswitch for VFIO passthrough\nvfio_pci\n");
    reveal_strlit("vfio_pci");
    reveal_strlit("\n");
    let lines = INITRAMFS_VFIO_LINES@;
    let base = trim_end(existing);
    let h = with_vfio_modules(existing);
    let at: int = if base.len() == 0 { 40 } else { base.len() as int + 41 };
    if base.len() == 0 {
        assert(h == lines);
    } else {
        assert(h == base + "\n"@ + lines);
        assert(h.subrange(at, at + 8) =~= lines.subrange(40, 48));
    }
    assert(lines.subrange(40, 48) =~= "vfio_pci"@);
    assert(h.subrange(at, at + 8) =~= "vfio_pci"@);
}

/// Adding vfio-pci to the initramfs twice does what adding it once does.
pub proof fn lemma_vfio_add_idempotent(tools: InitramfsTools, files: Map<Seq<char>, Seq<char>>)
    ensures
        vfio_added_files(tools, vfio_added_files(tools, files)) == vfio_added_files(tools, files),
{
    let once = vfio_added_files(tools, files);
    if tools.usr_bin_dracut {
        assert(once.insert(DRACUT_VFIO_CONF_PATH@, DRACUT_VFIO_CONTENT@) =~= once);
    } else if tools.usr_sbin_update_initramfs || tools.sbin_update_initramfs {
        let existing = match file_at(files, INITRAMFS_TOOLS_MODULES_PATH@) {
            Some(c) => c,
            None => Seq::empty(),
        };
        if !has_sub(existing, "vfio_pci"@) {
            lemma_vfio_modules_named(existing);
            assert(file_at(once, INITRAMFS_TOOLS_MODULES_PATH@) == Some(with_vfio_modules(existing)));
        }
    } else if tools.usr_bin_mkinitcpio {
        assert(once.insert(MKINITCPIO_VFIO_CONF_PATH@, MKINITCPIO_VFIO_CONTENT@) =~= once);
    }
}

/// A read gives back what the last write left: outside a preview,
/// `write_file` makes the file at its path hold exactly the content written
/// and `remove_file` leaves none there; files at other paths keep what they
/// held.
pub proof fn lemma_write_then_read(files: Map<Seq<char>, Seq<char>>, path: Seq<char>, content: Seq<char>, other: Seq<char>)
    requires
        other != path,
    ensures
        file_at(files.insert(path, content), path) == Some(content),
        file_at(files.insert(path, content), other) == file_at(files, other),
        file_at(files.remove(path), path) is None,
        file_at(files.remove(path), other) == file_at(files, other),
{
}

/// The command that rebuilds the initramfs, by the tools present, in
/// order: rpm-ostree on OSTree systems, dracut (under systemd-inhibit when
/// that exists), update-initramfs, then mkinitcpio; `None` without any.
pub open spec fn rebuild_command(tools: InitramfsTools) -> Option<(Seq<char>, Seq<Seq<char>>)> {
    if tools.ostree || tools.sysroot_ostree {
        Some(("rpm-ostree"@, seq!["initramfs"@, "--enable"@, "--arg=--force"@]))
    } else if tools.usr_bin_dracut || tools.usr_sbin_dracut {
        if tools.usr_bin_systemd_inhibit {
            Some((
                "systemd-inhibit"@,
                seq!["--who=gswitch"@, "--why=Rebuilding initramfs"@, "--"@, "dracut"@, "--force"@, "--regenerate-all"@],
            ))
        } else {
            Some(("dracut"@, seq!["--force"@, "--regenerate-all"@]))
        }
    } else if tools.usr_sbin_update_initramfs || tools.sbin_update_initramfs {
        Some(("update-initramfs"@, seq!["-u"@]))
    } else if tools.usr_bin_mkinitcpio {
        Some(("mkinitcpio"@, seq!["-P"@]))
    } else {
        None
    }
}

/// The message when no initramfs tool is present.
pub open spec fn no_rebuild_tool_msg() -> Seq<char> {
    "未找到可用的 initramfs 重建工具（支持: dracut, update-initramfs, mkinitcpio, rpm-ostree）"@
}

fn strings_of(items: &[&'static str]) -> (r: Vec<String>)
    ensures
        r@.map_values(|a: String| a@) == items@.map_values(|a: &'static str| a@),
{
    let mut r: Vec<String> = Vec::new();
    let mut i: usize = 0;
    while i < items.len()
        invariant
            i <= items@.len(),
            r@.map_values(|a: String| a@) == items@.take(i as int).map_values(|a: &'static str| a@),
        decreases items@.len() - i,
    {
        let ghost old_r = r@;
        r.push(String::from_str(items[i]));
        proof {
            assert(r@.map_values(|a: String| a@) =~= old_r.map_values(|a: String| a@).push(items@[i as int]@));
            assert(items@.take(i as int + 1).map_values(|a: &'static str| a@) =~= items@.take(i as int).map_values(|a: &'static str| a@).push(items@[i as int]@));
        }
        i += 1;
    }
    proof {
        assert(items@.take(items@.len() as int) =~= items@);
    }
    r
}

/// Queues the command that rebuilds the initramfs (see `rebuild_command`);
/// nothing in dry-run mode; an error when no tool is present.
pub fn rebuild_initramfs(sys: &SystemInfo, host: &mut HostState) -> (r: Result<(), GswitchError>)
    requires
        old(host).wf(),
    ensures
        final(host).wf(),
        final(host).files() == old(host).files(),
        final(host).services() == old(host).services(),
        final(host).cache() == old(host).cache(),
        final(host).dry() == old(host).dry(),
        final(host).commands() == if old(host).dry() || rebuild_command(sys.tools) is None {
            old(host).commands()
        } else {
            old(host).commands().push(rebuild_command(sys.tools).unwrap())
        },
        r is Err <==> !old(host).dry() && rebuild_command(sys.tools) is None,
        r matches Err(e) ==> (e matches GswitchError::Gpu(m) && m@ == no_rebuild_tool_msg()),
{
    if host.is_dry_run() {
        return Ok(());
    }
    let t = sys.tools;
    if t.ostree || t.sysroot_ostree {
        let args: [&'static str; 3] = ["initramfs", "--enable", "--arg=--force"];
        let a = strings_of(&args);
        proof {
            assert(args@.map_values(|a: &'static str| a@) =~= seq!["initramfs"@, "--enable"@, "--arg=--force"@]);
        }
        host.queue("rpm-ostree", a);
        return Ok(());
    }
    if t.usr_bin_dracut || t.usr_sbin_dracut {
        if t.usr_bin_systemd_inhibit {
            let args: [&'static str; 6] = ["--who=gswitch", "--why=Rebuilding initramfs", "--", "dracut", "--force", "--regenerate-all"];
            let a = strings_of(&args);
            proof {
                assert(args@.map_values(|a: &'static str| a@) =~= seq!["--who=gswitch"@, "--why=Rebuilding initramfs"@, "--"@, "dracut"@, "--force"@, "--regenerate-all"@]);
            }
            host.queue("systemd-inhibit", a);
        } else {
            let args: [&'static str; 2] = ["--force", "--regenerate-all"];
            let a = strings_of(&args);
            proof {
                assert(args@.map_values(|a: &'static str| a@) =~= seq!["--force"@, "--regenerate-all"@]);
            }
            host.queue("dracut", a);
        }
        return Ok(());
    }
    if t.usr_sbin_update_initramfs || t.sbin_update_initramfs {
        let args: [&'static str; 1] = ["-u"];
        let a = strings_of(&args);
        proof {
            assert(args@.map_values(|a: &'static str| a@) =~= seq!["-u"@]);
        }
        host.queue("update-initramfs", a);
        return Ok(());
    }
    if t.usr_bin_mkinitcpio {
        let args: [&'static str; 1] = ["-P"];
        let a = strings_of(&args);
        proof {
            assert(args@.map_values(|a: &'static str| a@) =~= seq!["-P"@]);
        }
        host.queue("mkinitcpio", a);
        return Ok(());
    }
    Err(GswitchError::Gpu(String::from_str("未找到可用的 initramfs 重建工具（支持: dracut, update-initramfs, mkinitcpio, rpm-ostree）")))
}

/// Where the X11 configuration for NVIDIA mode goes: `/etc/X11/xorg.conf.d`
/// when that directory exists, the fallback path otherwise.
pub fn get_xorg_conf_path(sys: &SystemInfo) -> (r: &'static str)
    ensures
        r@ == if sys.xorg_conf_dir { XORG_CONF_NVIDIA_PATH@ } else { XORG_CONF_NVIDIA_FALLBACK_PATH@ },
{
    if sys.xorg_conf_dir {
        XORG_CONF_NVIDIA_PATH
    } else {
        XORG_CONF_NVIDIA_FALLBACK_PATH
    }
}

/// Writes the X11 configuration that makes the NVIDIA GPU primary.
pub fn write_xorg_nvidia_config(sys: &SystemInfo, host: &mut HostState) -> (r: Result<(), GswitchError>)
    requires
        old(host).wf(),
    ensures
        r is Ok,
        final(host).wf(),
        final(host).same_but_files(old(host)),
        final(host).files() == if old(host).dry() {
            old(host).files()
        } else {
            old(host).files().insert(
                if sys.xorg_conf_dir { XORG_CONF_NVIDIA_PATH@ } else { XORG_CONF_NVIDIA_FALLBACK_PATH@ },
                XORG_CONF_NVIDIA_CONTENT@,
            )
        },
{
    let path = get_xorg_conf_path(sys);
    write_file(host, path, XORG_CONF_NVIDIA_CONTENT)
}

/// Writes the environment that asks applications to render on the NVIDIA
/// GPU.
pub fn write_nvidia_env_config(host: &mut HostState) -> (r: Result<(), GswitchError>)
    requires
        old(host).wf(),
    ensures
        r is Ok,
        final(host).wf(),
        final(host).same_but_files(old(host)),
        final(host).files() == if old(host).dry() {
            old(host).files()
        } else {
            old(host).files().insert(NV_ENV_PATH@, NV_ENV_CONTENT@)
        },
{
    write_file(host, NV_ENV_PATH, NV_ENV_CONTENT)
}

/// Service states after setting the NVIDIA suspend, resume and hibernate
/// services to `enable`.
pub open spec fn with_suspend_services(services: Map<Seq<char>, bool>, enable: bool) -> Map<Seq<char>, bool> {
    services.insert(NVIDIA_SUSPEND_SERVICES@[0]@, enable).insert(NVIDIA_SUSPEND_SERVICES@[1]@, enable).insert(
        NVIDIA_SUSPEND_SERVICES@[2]@,
        enable,
    )
}

/// Enables or disables the NVIDIA suspend, resume and hibernate services.
pub fn configure_nvidia_suspend_services(host: &mut HostState, enable: bool)
    requires
        old(host).wf(),
    ensures
        final(host).wf(),
        final(host).services() == if old(host).dry() {
            old(host).services()
        } else {
            with_suspend_services(old(host).services(), enable)
        },
        final(host).files() == old(host).files(),
        final(host).cache() == old(host).cache(),
        final(host).commands() == old(host).commands(),
        final(host).dry() == old(host).dry(),
{
    let _ = toggle_service(host, NVIDIA_SUSPEND_SERVICES[0], enable);
    let _ = toggle_service(host, NVIDIA_SUSPEND_SERVICES[1], enable);
    let _ = toggle_service(host, NVIDIA_SUSPEND_SERVICES[2], enable);
}

/// Service states after configuring the NVIDIA services for a mode: the
/// Dynamic Boost daemon, the fallback service and the suspend services.
pub open spec fn with_gpu_services(services: Map<Seq<char>, bool>, powerd: bool, fallback: bool, suspend: bool) -> Map<Seq<char>, bool> {
    with_suspend_services(
        services.insert(NVIDIA_POWERD_SERVICE@, powerd).insert(NVIDIA_FALLBACK_SERVICE@, fallback),
        suspend,
    )
}

/// Enables or disables the NVIDIA services that a mode wants.
pub fn configure_gpu_services(host: &mut HostState, powerd: bool, fallback: bool, suspend: bool)
    requires
        old(host).wf(),
    ensures
        final(host).wf(),
        final(host).services() == if old(host).dry() {
            old(host).services()
        } else {
            with_gpu_services(old(host).services(), powerd, fallback, suspend)
        },
        final(host).files() == old(host).files(),
        final(host).cache() == old(host).cache(),
        final(host).commands() == old(host).commands(),
        final(host).dry() == old(host).dry(),
{
    let _ = toggle_service(host, NVIDIA_POWERD_SERVICE, powerd);
    let _ = toggle_service(host, NVIDIA_FALLBACK_SERVICE, fallback);
    configure_nvidia_suspend_services(host, suspend);
}

/// Writes the PRIME discrete flag.
pub fn set_prime_discrete(host: &mut HostState, mode: &str) -> (r: Result<(), GswitchError>)
    requires
        old(host).wf(),
    ensures
        r is Ok,
        final(host).wf(),
        final(host).same_but_files(old(host)),
        final(host).files() == if old(host).dry() {
            old(host).files()
        } else {
            old(host).files().insert(crate::config::PRIME_DISCRETE_PATH@, mode@)
        },
{
    write_file(host, crate::config::PRIME_DISCRETE_PATH, mode)
}

/// The suspend settings and their key for a sleep mode.
pub open spec fn sleep_settings(m: SleepMode) -> Option<(Seq<char>, Seq<char>)> {
    match m {
        SleepMode::S0ix => Some((MODPROBE_S0IX@, "NVreg_EnableS0ixPowerManagement=1"@)),
        SleepMode::S3 => Some((MODPROBE_S3@, "NVreg_PreserveVideoMemoryAllocations=1"@)),
        SleepMode::Unknown => None,
    }
}

/// The modprobe text with the suspend settings appended: they replace a
/// text that is empty or only the generated header, and otherwise follow
/// it on a new line.
pub open spec fn merged_sleep_config(existing: Seq<char>, settings: Seq<char>) -> Seq<char> {
    if trim(existing).len() == 0 || trim_end(existing) == GENERATED_HEADER@ {
        trim(settings) + "\n"@
    } else {
        trim_end(existing) + "\n"@ + trim(settings)
    }
}

/// Whether `append_sleep_config` changes anything: in hybrid and NVIDIA
/// mode, with a known sleep mode, when the modprobe text lacks the key.
pub open spec fn sleep_config_applies(sys: SystemInfo, files: Map<Seq<char>, Seq<char>>, mode: GraphicsMode) -> bool {
    &&& mode != GraphicsMode::Integrated
    &&& mode != GraphicsMode::Passthrough
    &&& sleep_settings(sleep_mode_of(sys.mem_sleep@)) is Some
    &&& !has_sub(crate::detector::content_or_empty(files, MODPROBE_GPU_PATH@), sleep_settings(sleep_mode_of(sys.mem_sleep@)).unwrap().1)
}

/// Appends the suspend power settings for the system's sleep mode to the
/// modprobe file and enables the NVIDIA suspend services (see
/// `sleep_config_applies` and `merged_sleep_config`).
pub fn append_sleep_config(sys: &SystemInfo, host: &mut HostState, mode: GraphicsMode) -> (r: Result<(), GswitchError>)
    requires
        old(host).wf(),
    ensures
        r is Ok,
        final(host).wf(),
        final(host).cache() == old(host).cache(),
        final(host).commands() == old(host).commands(),
        final(host).dry() == old(host).dry(),
        !sleep_config_applies(*sys, old(host).files(), mode) || old(host).dry() ==> final(host).files() == old(host).files()
            && final(host).services() == old(host).services(),
        sleep_config_applies(*sys, old(host).files(), mode) && !old(host).dry() ==> final(host).files() == old(host).files().insert(
            MODPROBE_GPU_PATH@,
            merged_sleep_config(
                crate::detector::content_or_empty(old(host).files(), MODPROBE_GPU_PATH@),
                sleep_settings(sleep_mode_of(sys.mem_sleep@)).unwrap().0,
            ),
        ) && final(host).services() == with_suspend_services(old(host).services(), true),
{
    if mode == GraphicsMode::Integrated || mode == GraphicsMode::Passthrough {
        return Ok(());
    }
    let sleep = Detector::detect_sleep_mode(sys);
    let (settings, key): (&'static str, &'static str) = match sleep {
        SleepMode::S0ix => (MODPROBE_S0IX, "NVreg_EnableS0ixPowerManagement=1"),
        SleepMode::S3 => (MODPROBE_S3, "NVreg_PreserveVideoMemoryAllocations=1"),
        SleepMode::Unknown => {
            return Ok(());
        },
    };
    let existing = match read_file(host, MODPROBE_GPU_PATH) {
        Ok(c) => chars_of(c.as_str()),
        Err(_) => Vec::new(),
    };
    proof {
        if file_at(host.files(), MODPROBE_GPU_PATH@) is None {
            assert(existing@ =~= Seq::<char>::empty());
        }
    }
    if contains_str(&existing, key) {
        return Ok(());
    }
    let trimmed_settings = trim_chars(&chars_of(settings));
    let end_trimmed = trim_end_chars(&existing);
    let mut merged = String::new();
    if trim_chars(&existing).len() == 0 || chars_eq_str(&end_trimmed, GENERATED_HEADER) {
        push_chars(&mut merged, &trimmed_settings);
        push_str(&mut merged, "\n");
    } else {
        push_chars(&mut merged, &end_trimmed);
        push_str(&mut merged, "\n");
        push_chars(&mut merged, &trimmed_settings);
    }
    write_file(host, MODPROBE_GPU_PATH, merged.as_str())?;
    configure_nvidia_suspend_services(host, true);
    Ok(())
}


/// A piece of the second part is a piece of the whole.
proof fn lemma_has_sub_suffix(a: Seq<char>, b: Seq<char>, k: Seq<char>)
    requires
        has_sub(b, k),
    ensures
        has_sub(a + b, k),
{
    let i = choose|i: int| 0 <= i && i + k.len() <= b.len() && #[trigger] b.subrange(i, i + k.len()) == k;
    assert((a + b).subrange(a.len() + i, a.len() + i + k.len()) =~= b.subrange(i, i + k.len()));
}

/// The trimmed suspend settings of each sleep mode contain their key.
proof fn lemma_settings_hold_key(m: SleepMode)
    requires
        sleep_settings(m) is Some,
    ensures
        has_sub(trim(sleep_settings(m).unwrap().0), sleep_settings(m).unwrap().1),
{
    reveal_with_fuel(crate::text::trim_end, 2);
    reveal_with_fuel(crate::text::trim_start, 2);
    match m {
        SleepMode::S0ix => {
            reveal_strlit("options nvidia NVreg_EnableS0ixPowerManagement=1\n");
            reveal_strlit("NVreg_EnableS0ixPowerManagement=1");
            let s = MODPROBE_S0IX@;
            assert(trim(s) =~= s.drop_last());
            let k = "NVreg_EnableS0ixPowerManagement=1"@;
            assert(trim(s).subrange(15int, 15int + k.len()) =~= k);
        },
        SleepMode::S3 => {
            reveal_strlit("options nvidia NVreg_PreserveVideoMemoryAllocations=1 NVreg_TemporaryFilePath=/var/tmp\n");
            reveal_strlit("NVreg_PreserveVideoMemoryAllocations=1");
            let s = MODPROBE_S3@;
            assert(trim(s) =~= s.drop_last());
            let k = "NVreg_PreserveVideoMemoryAllocations=1"@;
            assert(trim(s).subrange(15int, 15int + k.len()) =~= k);
        },
        SleepMode::Unknown => {},
    }
}

/// Appending the suspend settings a second time changes nothing: once
/// appended, the modprobe text holds their key, so `append_sleep_config`
/// no longer applies.
pub proof fn lemma_sleep_config_idempotent(sys: SystemInfo, files: Map<Seq<char>, Seq<char>>, mode: GraphicsMode)
    requires
        sleep_config_applies(sys, files, mode),
    ensures
        !sleep_config_applies(
            sys,
            files.insert(
                MODPROBE_GPU_PATH@,
                merged_sleep_config(
                    crate::detector::content_or_empty(files, MODPROBE_GPU_PATH@),
                    sleep_settings(sleep_mode_of(sys.mem_sleep@)).unwrap().0,
                ),
            ),
            mode,
        ),
{
    let m = sleep_mode_of(sys.mem_sleep@);
    let (settings, key) = sleep_settings(m).unwrap();
    let existing = crate::detector::content_or_empty(files, MODPROBE_GPU_PATH@);
    let merged = merged_sleep_config(existing, settings);
    lemma_settings_hold_key(m);
    let i = choose|i: int| 0 <= i && i + key.len() <= trim(settings).len() && #[trigger] trim(settings).subrange(i, i + key.len()) == key;
    if trim(existing).len() == 0 || trim_end(existing) == GENERATED_HEADER@ {
        assert(merged.subrange(i, i + key.len()) =~= trim(settings).subrange(i, i + key.len()));
    } else {
        lemma_has_sub_suffix(trim_end(existing) + "\n"@, trim(settings), key);
    }
    assert(file_at(files.insert(MODPROBE_GPU_PATH@, merged), MODPROBE_GPU_PATH@) == Some(merged));
}

/// A file as saved in a snapshot: its content, or `None` when it did not
/// exist.
#[derive(Debug)]
pub struct SavedFile(pub Option<String>);

impl View for SavedFile {
    type V = Option<Seq<char>>;

    open spec fn view(&self) -> Option<Seq<char>> {
        match self.0 {
            Some(s) => Some(s@),
            None => None,
        }
    }
}

/// The paths in the first `k` entries of a list, plus the next one, are the
/// paths of the first `k + 1` entries.
pub proof fn lemma_path_set_step(paths: Seq<&'static str>, k: int)
    requires
        0 <= k < paths.len(),
    ensures
        path_set(paths.take(k + 1)) == path_set(paths.take(k)).insert(paths[k]@),
{
    assert forall|p: Seq<char>| path_set(paths.take(k + 1)).contains(p) <==> path_set(paths.take(k)).insert(paths[k]@).contains(p) by {
        if path_set(paths.take(k + 1)).contains(p) {
            let i = choose|i: int| 0 <= i < k + 1 && #[trigger] paths.take(k + 1)[i]@ == p;
            if i < k {
                assert(paths.take(k)[i]@ == p);
            }
        }
        if path_set(paths.take(k)).contains(p) {
            let i = choose|i: int| 0 <= i < k && #[trigger] paths.take(k)[i]@ == p;
            assert(paths.take(k + 1)[i]@ == p);
        }
        if p == paths[k]@ {
            assert(paths.take(k + 1)[k]@ == p);
        }
    }
    assert(path_set(paths.take(k + 1)) =~= path_set(paths.take(k)).insert(paths[k]@));
}

/// What a snapshot of `paths` records: for each path, the file's content,
/// or `None` when it does not exist.
pub open spec fn saved_states(files: Map<Seq<char>, Seq<char>>, paths: Seq<&'static str>) -> Map<Seq<char>, Option<Seq<char>>> {
    Map::new(|p: Seq<char>| path_set(paths).contains(p), |p: Seq<char>| file_at(files, p))
}

/// What a snapshot of the services `names` records: each one's known state
/// (nothing known in dry-run mode).
pub open spec fn saved_services(services: Map<Seq<char>, bool>, dry: bool, names: Seq<&'static str>) -> Map<Seq<char>, Option<bool>> {
    Map::new(
        |n: Seq<char>| path_set(names).contains(n),
        |n: Seq<char>| if dry || !services.dom().contains(n) { None } else { Some(services[n]) },
    )
}

/// The files after restoring: each saved path as saved (written or
/// removed), every other path as it is.
pub open spec fn restored_files(files: Map<Seq<char>, Seq<char>>, saved: Map<Seq<char>, Option<Seq<char>>>) -> Map<Seq<char>, Seq<char>> {
    Map::new(
        |p: Seq<char>| if saved.dom().contains(p) { saved[p] is Some } else { files.dom().contains(p) },
        |p: Seq<char>| if saved.dom().contains(p) { saved[p].unwrap() } else { files[p] },
    )
}

/// The services after restoring: each service saved with a known state set
/// back to it, every other service as it is.
pub open spec fn restored_services(services: Map<Seq<char>, bool>, saved: Map<Seq<char>, Option<bool>>) -> Map<Seq<char>, bool> {
    Map::new(
        |n: Seq<char>| services.dom().contains(n) || (saved.dom().contains(n) && saved[n] is Some),
        |n: Seq<char>| if saved.dom().contains(n) && saved[n] is Some { saved[n].unwrap() } else { services[n] },
    )
}

/// The configuration files and service states saved before a switch, for
/// rolling it back.
#[derive(Debug)]
pub struct ConfigSnapshot {
    files: Vec<(String, SavedFile)>,
    services: Vec<(String, Option<bool>)>,
}

impl ConfigSnapshot {
    /// The tables have distinct keys.
    pub closed spec fn wf(&self) -> bool {
        keys_distinct(self.files@) && keys_distinct(self.services@)
    }

    /// Saved files: path to content, `None` for a file that did not exist.
    pub closed spec fn files(&self) -> Map<Seq<char>, Option<Seq<char>>> {
        table_map(self.files@)
    }

    /// Saved services: name to state, `None` when it was not known.
    pub closed spec fn services(&self) -> Map<Seq<char>, Option<bool>> {
        table_map(self.services@)
    }

    /// Saves the files at `paths` and the states of the NVIDIA services.
    pub fn save(host: &HostState, paths: &[&'static str]) -> (r: Result<ConfigSnapshot, GswitchError>)
        requires
            host.wf(),
        ensures
            r matches Ok(snap) && snap.wf() && snap.files() == saved_states(host.files(), paths@)
                && snap.services() == saved_services(host.services(), host.dry(), SERVICE_SNAPSHOT_NAMES@),
    {
        let mut files: Vec<(String, SavedFile)> = Vec::new();
        let mut i: usize = 0;
        proof {
            assert(table_map(files@) =~= saved_states(host.files(), paths@.take(0)));
        }
        while i < paths.len()
            invariant
                i <= paths@.len(),
                host.wf(),
                keys_distinct(files@),
                table_map(files@) == saved_states(host.files(), paths@.take(i as int)),
            decreases paths@.len() - i,
        {
            let state = if file_exists(host, paths[i]) {
                match read_file(host, paths[i]) {
                    Ok(c) => SavedFile(Some(c)),
                    Err(_) => SavedFile(Some(String::new())),
                }
            } else {
                SavedFile(None)
            };
            proof {
                assert(state@ == file_at(host.files(), paths@[i as int]@));
            }
            table_set(&mut files, paths[i], state);
            proof {
                lemma_path_set_step(paths@, i as int);
                assert(table_map(files@) =~= saved_states(host.files(), paths@.take(i as int + 1)));
            }
            i += 1;
        }
        proof {
            assert(paths@.take(paths@.len() as int) =~= paths@);
        }
        let mut services: Vec<(String, Option<bool>)> = Vec::new();
        let mut k: usize = 0;
        proof {
            assert(table_map(services@) =~= saved_services(host.services(), host.dry(), SERVICE_SNAPSHOT_NAMES@.take(0)));
        }
        while k < 5
            invariant
                k <= 5,
                host.wf(),
                keys_distinct(services@),
                table_map(services@) == saved_services(host.services(), host.dry(), SERVICE_SNAPSHOT_NAMES@.take(k as int)),
            decreases 5 - k,
        {
            let state = service_is_enabled(host, SERVICE_SNAPSHOT_NAMES[k]);
            table_set(&mut services, SERVICE_SNAPSHOT_NAMES[k], state);
            proof {
                lemma_path_set_step(SERVICE_SNAPSHOT_NAMES@, k as int);
                assert(table_map(services@) =~= saved_services(host.services(), host.dry(), SERVICE_SNAPSHOT_NAMES@.take(k as int + 1)));
            }
            k += 1;
        }
        proof {
            assert(SERVICE_SNAPSHOT_NAMES@.take(5) =~= SERVICE_SNAPSHOT_NAMES@);
        }
        Ok(ConfigSnapshot { files, services })
    }

    /// Puts the saved files and service states back (nothing in dry-run
    /// mode).
    pub fn restore(&self, host: &mut HostState)
        requires
            self.wf(),
            old(host).wf(),
        ensures
            final(host).wf(),
            final(host).cache() == old(host).cache(),
            final(host).commands() == old(host).commands(),
            final(host).dry() == old(host).dry(),
            final(host).files() == if old(host).dry() { old(host).files() } else { restored_files(old(host).files(), self.files()) },
            final(host).services() == if old(host).dry() {
                old(host).services()
            } else {
                restored_services(old(host).services(), self.services())
            },
    {
        let ghost start = host.files();
        let ghost start_services = host.services();
        let mut i: usize = 0;
        proof {
            assert(start =~= restored_files(start, table_map(self.files@.take(0))));
        }
        while i < self.files.len()
            invariant
                i <= self.files@.len(),
                self.wf(),
                host.wf(),
                host.cache() == old(host).cache(),
                host.commands() == old(host).commands(),
                host.dry() == old(host).dry(),
                host.services() == start_services,
                host.files() == if host.dry() { start } else { restored_files(start, table_map(self.files@.take(i as int))) },
            decreases self.files@.len() - i,
        {
            let entry = &self.files[i];
            let ghost prev = host.files();
            match &entry.1.0 {
                Some(data) => {
                    let _ = write_file(host, entry.0.as_str(), data.as_str());
                },
                None => {
                    let _ = remove_file(host, entry.0.as_str());
                },
            }
            proof {
                let t = self.files@.take(i as int + 1);
                assert(t.drop_last() =~= self.files@.take(i as int));
                assert(t.last() == *entry);
                if !host.dry() {
                    assert(host.files() =~= restored_files(start, table_map(t)));
                }
            }
            i += 1;
        }
        proof {
            assert(self.files@.take(self.files@.len() as int) =~= self.files@);
        }
        let ghost mid = host.files();
        let mut k: usize = 0;
        proof {
            assert(start_services =~= restored_services(start_services, table_map(self.services@.take(0))));
        }
        while k < self.services.len()
            invariant
                k <= self.services@.len(),
                self.wf(),
                host.wf(),
                host.cache() == old(host).cache(),
                host.commands() == old(host).commands(),
                host.dry() == old(host).dry(),
                host.files() == mid,
                host.services() == if host.dry() {
                    start_services
                } else {
                    restored_services(start_services, table_map(self.services@.take(k as int)))
                },
            decreases self.services@.len() - k,
        {
            let entry = &self.services[k];
            match entry.1 {
                Some(b) => {
                    let _ = toggle_service(host, entry.0.as_str(), b);
                },
                None => {},
            }
            proof {
                let t = self.services@.take(k as int + 1);
                assert(t.drop_last() =~= self.services@.take(k as int));
                assert(t.last() == *entry);
                crate::table::lemma_table_dom(self.services@.take(k as int), entry.0@);
                if table_map(self.services@.take(k as int)).dom().contains(entry.0@) {
                    let j = choose|j: int| 0 <= j < k && #[trigger] self.services@.take(k as int)[j].0@ == entry.0@;
                    assert(self.services@[j].0@ != self.services@[k as int].0@);
                }
                if !host.dry() {
                    assert(host.services() =~= restored_services(start_services, table_map(t)));
                }
            }
            k += 1;
        }
        proof {
            assert(self.services@.take(self.services@.len() as int) =~= self.services@);
        }
    }
}

/// What to write back when a switch that was already written (`written`)
/// has to be undone because writing it or rebuilding the initramfs failed:
/// the snapshot's files and known service states put back, and the
/// initramfs rebuild queued again (see `ConfigSnapshot::restore` and
/// `rebuild_initramfs`). The caller writes back the result against
/// `written`.
pub fn rollback(snapshot: &ConfigSnapshot, sys: &SystemInfo, written: &HostState) -> (r: HostState)
    requires
        snapshot.wf(),
        written.wf(),
    ensures
        r.wf(),
        r.dry() == written.dry(),
        r.cache() == written.cache(),
        r.files() == if written.dry() { written.files() } else { restored_files(written.files(), snapshot.files()) },
        r.services() == if written.dry() {
            written.services()
        } else {
            restored_services(written.services(), snapshot.services())
        },
        r.commands() == if written.dry() || rebuild_command(sys.tools) is None {
            written.commands()
        } else {
            written.commands().push(rebuild_command(sys.tools).unwrap())
        },
{
    let mut r = written.copy_as(written.is_dry_run());
    snapshot.restore(&mut r);
    let _ = rebuild_initramfs(sys, &mut r);
    r
}

/// The files after writing back `target` over `disk`: the files that
/// differ written (`file_writes`), those that `target` lacks removed.
pub open spec fn written_back(disk: Map<Seq<char>, Seq<char>>, target: Map<Seq<char>, Seq<char>>) -> Map<Seq<char>, Seq<char>> {
    disk.union_prefer_right(file_writes(disk, target)).remove_keys(disk.dom().difference(target.dom()))
}

/// Writing back a target's differences makes the files the target.
pub proof fn lemma_written_back(disk: Map<Seq<char>, Seq<char>>, target: Map<Seq<char>, Seq<char>>)
    ensures
        written_back(disk, target) == target,
{
    assert(written_back(disk, target) =~= target);
}

/// A rollback puts the snapshot back: once the rolled-back state is written
/// back over the files that the switch wrote, every snapshot path holds
/// what it held when the snapshot was taken (or is absent again), and every
/// other path keeps what the switch left.
pub proof fn lemma_rollback_restores(before: Map<Seq<char>, Seq<char>>, paths: Seq<&'static str>, written: Map<Seq<char>, Seq<char>>)
    ensures
        forall|p: Seq<char>| #[trigger] file_at(written_back(written, restored_files(written, saved_states(before, paths))), p) == if path_set(
            paths,
        ).contains(p) {
            file_at(before, p)
        } else {
            file_at(written, p)
        },
{
    lemma_written_back(written, restored_files(written, saved_states(before, paths)));
    lemma_restore_undoes(before, paths, written);
}

/// Restoring a snapshot undoes every change to the saved files: after any
/// changes, restoring gives each saved path back as it was when the
/// snapshot was taken (content, or absence) and leaves every other path as
/// it is.
pub proof fn lemma_restore_undoes(before: Map<Seq<char>, Seq<char>>, paths: Seq<&'static str>, after: Map<Seq<char>, Seq<char>>)
    ensures
        forall|p: Seq<char>| #[trigger] file_at(restored_files(after, saved_states(before, paths)), p) == if path_set(paths).contains(p) {
            file_at(before, p)
        } else {
            file_at(after, p)
        },
{
}

/// Restoring a snapshot sets every saved service whose state was known
/// back to that state and leaves the others as they are.
pub proof fn lemma_restore_services(before: Map<Seq<char>, bool>, names: Seq<&'static str>, after: Map<Seq<char>, bool>)
    ensures
        forall|n: Seq<char>| path_set(names).contains(n) && before.dom().contains(n) ==> #[trigger] restored_services(after, saved_services(before, false, names)).dom().contains(n)
            && restored_services(after, saved_services(before, false, names))[n] == before[n],
        forall|n: Seq<char>| !(path_set(names).contains(n) && before.dom().contains(n)) ==> (#[trigger] restored_services(after, saved_services(before, false, names)).dom().contains(n)
            <==> after.dom().contains(n)) && (after.dom().contains(n) ==> restored_services(after, saved_services(before, false, names))[n] == after[n]),
{
}


/// Whether the NVIDIA GPU is powered (present in sysfs).
pub fn query_runtime_power(sys: &SystemInfo) -> (r: bool)
    ensures
        r == (sys.pci_devices matches Ok(devs) && gpus_of(devs@, nvidia_vendor()).len() > 0),
{
    Detector::is_nvidia_online(sys)
}

/// What automatic power management does: in NVIDIA and hybrid mode the GPU
/// is powered on; in integrated and passthrough mode it is kept on when it
/// supports runtime power management (the driver idles it) and otherwise
/// powered off, unless it is already off.
pub open spec fn auto_power_action(sys: SystemInfo, files: Map<Seq<char>, Seq<char>>) -> Option<crate::graphics::PowerAction> {
    let mode = current_mode(sys.proc_modules@, files);
    let on = if mode == GraphicsMode::Integrated || mode == GraphicsMode::Passthrough {
        runtimepm_of(sys) == Some(true)
    } else {
        true
    };
    if on {
        Some(crate::graphics::PowerAction::On)
    } else if sys.pci_devices matches Ok(devs) && gpus_of(devs@, nvidia_vendor()).len() > 0 {
        Some(crate::graphics::PowerAction::Off)
    } else {
        None
    }
}

/// In passthrough mode (the modprobe file binds vfio-pci) automatic power
/// management keeps the GPU on only when it supports runtime power
/// management; otherwise it powers the GPU off when sysfs lists it, and does
/// nothing when it is already gone.
pub proof fn lemma_auto_power_passthrough(sys: SystemInfo, files: Map<Seq<char>, Seq<char>>)
    requires
        binds_vfio(content_or_empty(files, MODPROBE_GPU_PATH@)),
    ensures
        auto_power_action(sys, files) == (if runtimepm_of(sys) == Some(true) {
            Some(crate::graphics::PowerAction::On)
        } else if sys.pci_devices matches Ok(devs) && gpus_of(devs@, nvidia_vendor()).len() > 0 {
            Some(crate::graphics::PowerAction::Off)
        } else {
            None
        }),
{
}

/// In integrated mode (no vfio-pci binding, no NVIDIA module loaded)
/// automatic power management decides in the same way: on only with
/// runtime power management, otherwise off while the GPU is present.
pub proof fn lemma_auto_power_integrated(sys: SystemInfo, files: Map<Seq<char>, Seq<char>>)
    requires
        !binds_vfio(content_or_empty(files, MODPROBE_GPU_PATH@)),
        !nvidia_loaded(sys.proc_modules@),
    ensures
        auto_power_action(sys, files) == (if runtimepm_of(sys) == Some(true) {
            Some(crate::graphics::PowerAction::On)
        } else if sys.pci_devices matches Ok(devs) && gpus_of(devs@, nvidia_vendor()).len() > 0 {
            Some(crate::graphics::PowerAction::Off)
        } else {
            None
        }),
{
}

/// Passthrough and integrated mode get the same automatic power action on
/// the same hardware: the host files of a passthrough machine and those of
/// an integrated one lead to one answer.
pub proof fn lemma_auto_power_passthrough_as_integrated(
    sys: SystemInfo,
    passthrough_files: Map<Seq<char>, Seq<char>>,
    integrated_files: Map<Seq<char>, Seq<char>>,
)
    requires
        binds_vfio(content_or_empty(passthrough_files, MODPROBE_GPU_PATH@)),
        !binds_vfio(content_or_empty(integrated_files, MODPROBE_GPU_PATH@)),
        !nvidia_loaded(sys.proc_modules@),
    ensures
        auto_power_action(sys, passthrough_files) == auto_power_action(sys, integrated_files),
{
    lemma_auto_power_passthrough(sys, passthrough_files);
    lemma_auto_power_integrated(sys, integrated_files);
}

/// With an NVIDIA module loaded and no vfio-pci binding (NVIDIA or hybrid
/// mode) automatic power management always powers the GPU on.
pub proof fn lemma_auto_power_nvidia_loaded(sys: SystemInfo, files: Map<Seq<char>, Seq<char>>)
    requires
        !binds_vfio(content_or_empty(files, MODPROBE_GPU_PATH@)),
        nvidia_loaded(sys.proc_modules@),
    ensures
        auto_power_action(sys, files) == Some(crate::graphics::PowerAction::On),
{
}

/// The power action that automatic power management takes (see
/// `auto_power_action`): `On`, `Off`, or `None` when nothing is to be done.
pub fn auto_power(sys: &SystemInfo, host: &HostState) -> (r: Option<crate::graphics::PowerAction>)
    requires
        host.wf(),
    ensures
        r == auto_power_action(*sys, host.files()),
{
    let mode = Detector::query_current_mode(sys, host);
    let should_power_on = if mode == GraphicsMode::Integrated || mode == GraphicsMode::Passthrough {
        match Detector::gpu_supports_runtimepm(sys) {
            Ok(b) => b,
            Err(_) => false,
        }
    } else {
        true
    };
    if should_power_on {
        Some(crate::graphics::PowerAction::On)
    } else if Detector::is_nvidia_online(sys) {
        Some(crate::graphics::PowerAction::Off)
    } else {
        None
    }
}

/// The runtime power control value for a mode: always on in NVIDIA mode,
/// automatic otherwise.
pub fn power_control_value(mode: GraphicsMode) -> (r: &'static str)
    ensures
        r@ == if mode == GraphicsMode::Nvidia { "on\n"@ } else { "auto\n"@ },
{
    if mode == GraphicsMode::Nvidia {
        "on\n"
    } else {
        "auto\n"
    }
}

/// Whether command output has a line that is not blank (`nvidia-smi`
/// listing a process).
pub fn has_output_lines(stdout: &str) -> (r: bool)
    ensures
        r == exists|i: int| 0 <= i < lines_of(stdout@).len() && trim(#[trigger] lines_of(stdout@)[i]).len() > 0,
{
    let v = chars_of(stdout);
    let lines = lines_chars(&v);
    let mut k: usize = 0;
    while k < lines.len()
        invariant
            k <= lines.len(),
            views(lines@) == lines_of(v@),
            v@ == stdout@,
            forall|j: int| 0 <= j < k ==> trim(#[trigger] lines_of(stdout@)[j]).len() == 0,
        decreases lines.len() - k,
    {
        proof {
            assert(views(lines@)[k as int] == lines@[k as int]@);
        }
        if trim_chars(&lines[k]).len() > 0 {
            return true;
        }
        k += 1;
    }
    proof {
        assert forall|j: int| 0 <= j < lines_of(stdout@).len() implies trim(#[trigger] lines_of(stdout@)[j]).len() == 0 by {
            assert(j < k);
        }
    }
    false
}

/// A PCI function as listed for powering off: its address and the raw
/// content of its `vendor` attribute.
#[derive(Debug)]
pub struct PciFunction {
    pub name: String,
    pub vendor: String,
}

/// The part of a PCI address before the function number (`0000:01:00`).
pub open spec fn slot_of(addr: Seq<char>) -> Seq<char> {
    split_on(addr, '.')[0]
}

/// The function number of a PCI address (after its last `.`), 0 when it
/// does not parse.
pub open spec fn function_number(addr: Seq<char>) -> nat {
    let p = split_on(addr, '.');
    match parse_unsigned(p[p.len() - 1], 10, u32_max()) {
        Some(v) => v,
        None => 0,
    }
}

/// The NVIDIA functions in the same slot as `pci_id`, in listing order.
pub open spec fn slot_functions(pci_id: Seq<char>, fs: Seq<PciFunction>) -> Seq<Seq<char>>
    decreases fs.len(),
{
    if fs.len() == 0 {
        Seq::empty()
    } else {
        let f = fs.last();
        let rest = slot_functions(pci_id, fs.drop_last());
        if slot_of(f.name@) == slot_of(pci_id) && trim(f.vendor@) == "0x10de"@ {
            rest.push(f.name@)
        } else {
            rest
        }
    }
}

/// `x` placed after every entry whose function number is at least its own.
pub open spec fn insert_desc(s: Seq<Seq<char>>, x: Seq<char>) -> Seq<Seq<char>>
    decreases s.len(),
{
    if s.len() == 0 {
        seq![x]
    } else if function_number(s.last()) >= function_number(x) {
        s.push(x)
    } else {
        insert_desc(s.drop_last(), x).push(s.last())
    }
}

/// Addresses ordered by function number, highest first, keeping the
/// listing order among equal numbers (a stable sort).
pub open spec fn sort_desc(s: Seq<Seq<char>>) -> Seq<Seq<char>>
    decreases s.len(),
{
    if s.len() == 0 {
        Seq::empty()
    } else {
        insert_desc(sort_desc(s.drop_last()), s.last())
    }
}

/// Function numbers do not increase along the sequence.
pub open spec fn descending(s: Seq<Seq<char>>) -> bool {
    forall|i: int, j: int| 0 <= i < j < s.len() ==> function_number(#[trigger] s[i]) >= function_number(#[trigger] s[j])
}

fn function_number_of(addr: &Vec<char>) -> (r: u32)
    ensures
        r == function_number(addr@),
{
    let parts = split_chars(addr, '.');
    proof {
        crate::text::lemma_split_nonempty(addr@, '.');
        assert(views(parts@).len() == parts@.len());
        assert(views(parts@)[parts@.len() - 1] == parts@[parts@.len() - 1]@);
    }
    match parse_radix(&parts[parts.len() - 1], 10, 0xffff_ffff) {
        Some(v) => v,
        None => 0,
    }
}

fn slot_chars(addr: &Vec<char>) -> (r: Vec<char>)
    ensures
        r@ == slot_of(addr@),
{
    let parts = split_chars(addr, '.');
    proof {
        crate::text::lemma_split_nonempty(addr@, '.');
        assert(views(parts@)[0] == parts@[0]@);
    }
    crate::text::slice_chars(&parts[0], 0, parts[0].len())
}

/// Inserting into a descending sequence keeps it descending.
proof fn lemma_insert_desc(s: Seq<Seq<char>>, x: Seq<char>)
    requires
        descending(s),
    ensures
        descending(insert_desc(s, x)),
        insert_desc(s, x).len() == s.len() + 1,
        insert_desc(s, x).to_multiset() == s.to_multiset().insert(x),
        s.len() > 0 && function_number(s.last()) < function_number(x) ==> insert_desc(s, x).last() == s.last(),
    decreases s.len(),
{
    broadcast use vstd::seq_lib::group_to_multiset_ensures;
    if s.len() == 0 {
        assert(seq![x] =~= Seq::<Seq<char>>::empty().push(x));
    } else if function_number(s.last()) >= function_number(x) {
        let r = s.push(x);
        assert forall|i: int, j: int| 0 <= i < j < r.len() implies function_number(#[trigger] r[i]) >= function_number(#[trigger] r[j]) by {
            if j == r.len() - 1 {
                if i < s.len() - 1 {
                    assert(function_number(s[i]) >= function_number(s[s.len() - 1]));
                }
            }
        }
    } else {
        let p = s.drop_last();
        assert(descending(p));
        lemma_insert_desc(p, x);
        let q = insert_desc(p, x);
        let r = q.push(s.last());
        assert(s =~= p.push(s.last()));
        assert forall|i: int, j: int| 0 <= i < j < r.len() implies function_number(#[trigger] r[i]) >= function_number(#[trigger] r[j]) by {
            if j == r.len() - 1 {
                if i < q.len() {
                    assert(q.to_multiset().count(q[i]) > 0);
                    assert(p.to_multiset().insert(x).count(q[i]) > 0);
                    if q[i] != x {
                        assert(p.to_multiset().count(q[i]) > 0);
                        assert(p.contains(q[i]));
                        let k = choose|k: int| 0 <= k < p.len() && p[k] == q[i];
                        assert(s[k] == p[k]);
                        assert(function_number(s[k]) >= function_number(s[s.len() - 1]));
                    }
                }
            }
        }
    }
}

proof fn lemma_sort_desc(s: Seq<Seq<char>>)
    ensures
        descending(sort_desc(s)),
        sort_desc(s).to_multiset() == s.to_multiset(),
    decreases s.len(),
{
    broadcast use vstd::seq_lib::group_to_multiset_ensures;
    if s.len() > 0 {
        lemma_sort_desc(s.drop_last());
        lemma_insert_desc(sort_desc(s.drop_last()), s.last());
        assert(s =~= s.drop_last().push(s.last()));
    }
}

/// The NVIDIA functions sharing the GPU's slot (by the part of the address
/// before `.`, with vendor `0x10de`), highest function number first, so
/// that child functions are unbound and removed before the GPU itself.
pub fn power_off_functions(pci_id: &str, functions: &Vec<PciFunction>) -> (r: Vec<String>)
    ensures
        r@.map_values(|s: String| s@) == sort_desc(slot_functions(pci_id@, functions@)),
        descending(r@.map_values(|s: String| s@)),
        r@.map_values(|s: String| s@).to_multiset() == slot_functions(pci_id@, functions@).to_multiset(),
{
    let slot = slot_chars(&chars_of(pci_id));
    let mut out: Vec<String> = Vec::new();
    let mut i: usize = 0;
    while i < functions.len()
        invariant
            i <= functions.len(),
            slot@ == slot_of(pci_id@),
            out@.map_values(|s: String| s@) == sort_desc(slot_functions(pci_id@, functions@.take(i as int))),
        decreases functions.len() - i,
    {
        let f = &functions[i];
        let name = chars_of(f.name.as_str());
        let vendor = trim_chars(&chars_of(f.vendor.as_str()));
        proof {
            assert(functions@.take(i as int + 1).drop_last() =~= functions@.take(i as int));
            assert(functions@.take(i as int + 1).last() == *f);
        }
        let ghost prev = slot_functions(pci_id@, functions@.take(i as int));
        if chars_eq(&slot_chars(&name), &slot) && chars_eq_str(&vendor, "0x10de") {
            insert_by_function(&mut out, f.name.clone());
            proof {
                assert(slot_functions(pci_id@, functions@.take(i as int + 1)) == prev.push(f.name@));
                assert(prev.push(f.name@).drop_last() =~= prev);
            }
        } else {
            proof {
                assert(slot_functions(pci_id@, functions@.take(i as int + 1)) == prev);
            }
        }
        i += 1;
    }
    proof {
        assert(functions@.take(functions.len() as int) =~= functions@);
        lemma_sort_desc(slot_functions(pci_id@, functions@));
    }
    out
}

/// Inserts `x` after every entry whose function number is at least its own.
fn insert_by_function(out: &mut Vec<String>, x: String)
    ensures
        final(out)@.map_values(|s: String| s@) == insert_desc(old(out)@.map_values(|s: String| s@), x@),
    decreases old(out)@.len(),
{
    let ghost before = out@.map_values(|s: String| s@);
    if out.len() == 0 {
        out.push(x);
        proof {
            assert(out@.map_values(|s: String| s@) =~= seq![x@]);
        }
        return;
    }
    let last_number = function_number_of(&chars_of(out[out.len() - 1].as_str()));
    let xn = function_number_of(&chars_of(x.as_str()));
    proof {
        assert(before.last() == out@[out@.len() - 1]@);
    }
    if last_number >= xn {
        out.push(x);
        proof {
            assert(out@.map_values(|s: String| s@) =~= before.push(x@));
        }
    } else {
        let last = out.pop().unwrap();
        proof {
            assert(out@.map_values(|s: String| s@) =~= before.drop_last());
        }
        insert_by_function(out, x);
        let ghost mid = out@.map_values(|s: String| s@);
        out.push(last);
        proof {
            assert(out@.map_values(|s: String| s@) =~= mid.push(before.last()));
        }
    }
}

} // verus!
