//! The command-line interface: the commands, and the rules about them that
//! do not depend on how arguments are parsed.

use vstd::prelude::*;
use crate::graphics::{GraphicsMode, NvidiaOptions, PowerAction, SwitchOptions};
use crate::text::{chars_eq_str, chars_of, lines_chars, lines_of, starts_with, starts_with_str, trim, trim_chars, views, words, words_chars};

verus! {

/// Runtime power actions on the command line.
#[derive(Debug, Clone, Copy, PartialEq, Eq, Structural)]
pub enum PowerActionArg {
    On,
    Off,
    Auto,
}

/// The commands.
#[derive(Debug, Clone, Copy, PartialEq, Eq, Structural)]
pub enum Command {
    /// Integrated GPU only.
    Integrated,
    /// NVIDIA GPU bound to vfio-pci for a virtual machine.
    Passthrough,
    /// PRIME render offload, with an optional RTD3 level (0 to 3).
    Hybrid { rtd3: Option<u32> },
    /// Render on the NVIDIA GPU.
    Nvidia,
    /// Show the current mode.
    Query,
    /// Show whether the machine can switch.
    Switchable,
    /// Show or change the NVIDIA GPU's runtime power.
    Power { action: Option<PowerActionArg> },
    /// Show the recommended mode.
    Default,
    /// Show whether external displays need the NVIDIA GPU.
    ExtDisplay,
    /// Show whether the GPU supports runtime power management.
    RuntimePm,
    /// Remove every generated configuration.
    Reset,
    /// Create the GPU cache.
    CacheCreate,
    /// Delete the GPU cache.
    CacheDelete,
    /// Show the GPU cache.
    CacheQuery,
}

/// Parsed command line.
#[derive(Debug, Clone, Copy)]
pub struct Cli {
    /// Preview: show what would be done, change nothing.
    pub dry_run: bool,
    pub command: Command,
}

/// Commands that change the system and so need root: mode switches, power
/// changes, reset and cache changes.
pub open spec fn changes_system(c: Command) -> bool {
    match c {
        Command::Integrated | Command::Passthrough | Command::Hybrid { .. } | Command::Nvidia => true,
        Command::Power { action } => action is Some,
        Command::Reset | Command::CacheCreate | Command::CacheDelete => true,
        _ => false,
    }
}

impl Cli {
    /// Whether the command must run as root: it changes the system and this
    /// is not a preview.
    pub fn requires_root(&self) -> (r: bool)
        ensures
            r == (!self.dry_run && changes_system(self.command)),
    {
        if self.dry_run {
            return false;
        }
        match self.command {
            Command::Integrated | Command::Passthrough | Command::Hybrid { .. } | Command::Nvidia => true,
            Command::Power { action } => action.is_some(),
            Command::Reset | Command::CacheCreate | Command::CacheDelete => true,
            _ => false,
        }
    }
}

/// The mode and RTD3 level that a switch command asks for; `None` for the
/// other commands.
pub open spec fn requested_switch(c: Command) -> Option<(GraphicsMode, Option<u32>)> {
    match c {
        Command::Integrated => Some((GraphicsMode::Integrated, None)),
        Command::Passthrough => Some((GraphicsMode::Passthrough, None)),
        Command::Hybrid { rtd3 } => Some((GraphicsMode::Hybrid, rtd3)),
        Command::Nvidia => Some((GraphicsMode::Nvidia, None)),
        _ => None,
    }
}

/// The power change that a power command asks for; `None` when it only
/// asks for the state, and for the other commands.
pub open spec fn requested_power(c: Command) -> Option<PowerAction> {
    match c {
        Command::Power { action: Some(PowerActionArg::On) } => Some(PowerAction::On),
        Command::Power { action: Some(PowerActionArg::Off) } => Some(PowerAction::Off),
        Command::Power { action: Some(PowerActionArg::Auto) } => Some(PowerAction::Auto),
        _ => None,
    }
}

/// The line that a yes-or-no query prints for its answer; `None` for the
/// commands that are not such queries.
pub open spec fn answer_text(c: Command, yes: bool) -> Option<Seq<char>> {
    match c {
        Command::Switchable => Some(if yes { "可切换"@ } else { "不可切换"@ }),
        Command::Power { action: None } => Some(if yes { "开（独立显卡）"@ } else { "关（独立显卡）"@ }),
        Command::ExtDisplay => Some(if yes { "需要独立显卡"@ } else { "不需要独立显卡"@ }),
        Command::RuntimePm => Some(if yes { "支持"@ } else { "不支持"@ }),
        _ => None,
    }
}

/// A yes-or-no query prints different lines for yes and for no, and only
/// the queries print one: the power query answers `开（独立显卡）` when the
/// GPU is on and `关（独立显卡）` when it is off, and each other query's
/// "no" line is its "yes" line with `不` in front.
pub proof fn lemma_answers_distinguish(c: Command)
    ensures
        answer_text(c, true) is Some <==> answer_text(c, false) is Some,
        answer_text(c, true) is Some ==> answer_text(c, true) != answer_text(c, false),
        answer_text(Command::Power { action: None }, true) == Some("开（独立显卡）"@),
        answer_text(Command::Power { action: None }, false) == Some("关（独立显卡）"@),
        (c == Command::Switchable || c == Command::ExtDisplay || c == Command::RuntimePm) ==> answer_text(c, false)
            == Some("不"@ + answer_text(c, true).unwrap()),
{
    reveal_strlit("可切换");
    reveal_strlit("不可切换");
    reveal_strlit("开（独立显卡）");
    reveal_strlit("关（独立显卡）");
    reveal_strlit("需要独立显卡");
    reveal_strlit("不需要独立显卡");
    reveal_strlit("支持");
    reveal_strlit("不支持");
    reveal_strlit("不");
    assert("可切换"@ != "不可切换"@) by {
        assert("可切换"@.len() != "不可切换"@.len());
    }
    assert("开（独立显卡）"@ != "关（独立显卡）"@) by {
        assert("开（独立显卡）"@[0] != "关（独立显卡）"@[0]);
    }
    assert("需要独立显卡"@ != "不需要独立显卡"@) by {
        assert("需要独立显卡"@.len() != "不需要独立显卡"@.len());
    }
    assert("支持"@ != "不支持"@) by {
        assert("支持"@.len() != "不支持"@.len());
    }
    assert("不可切换"@ =~= "不"@ + "可切换"@);
    assert("不需要独立显卡"@ =~= "不"@ + "需要独立显卡"@);
    assert("不支持"@ =~= "不"@ + "支持"@);
}

impl Cli {
    /// The switch that the command asks for (see `requested_switch`), with
    /// the other NVIDIA options at their defaults.
    pub fn switch_options(&self) -> (r: Option<SwitchOptions>)
        ensures
            match requested_switch(self.command) {
                Some((mode, rtd3)) => r matches Some(o) && o.mode == mode && o.nvidia_opts.rtd3 == rtd3
                    && o.nvidia_opts.coolbits is None && !o.nvidia_opts.force_comp,
                None => r is None,
            },
    {
        let (mode, rtd3) = match self.command {
            Command::Integrated => (GraphicsMode::Integrated, None),
            Command::Passthrough => (GraphicsMode::Passthrough, None),
            Command::Hybrid { rtd3 } => (GraphicsMode::Hybrid, rtd3),
            Command::Nvidia => (GraphicsMode::Nvidia, None),
            _ => {
                return None;
            },
        };
        Some(SwitchOptions { mode, nvidia_opts: NvidiaOptions { rtd3, coolbits: None, force_comp: false } })
    }

    /// The power change that the command asks for (see `requested_power`).
    pub fn power_request(&self) -> (r: Option<PowerAction>)
        ensures
            r == requested_power(self.command),
    {
        match self.command {
            Command::Power { action: Some(PowerActionArg::On) } => Some(PowerAction::On),
            Command::Power { action: Some(PowerActionArg::Off) } => Some(PowerAction::Off),
            Command::Power { action: Some(PowerActionArg::Auto) } => Some(PowerAction::Auto),
            _ => None,
        }
    }

    /// The line printed for the answer of a yes-or-no query (see
    /// `answer_text`).
    pub fn answer_line(&self, yes: bool) -> (r: Option<&'static str>)
        ensures
            match answer_text(self.command, yes) {
                Some(t) => r matches Some(l) && l@ == t,
                None => r is None,
            },
    {
        match self.command {
            Command::Switchable => Some(if yes { "可切换" } else { "不可切换" }),
            Command::Power { action: None } => Some(if yes { "开（独立显卡）" } else { "关（独立显卡）" }),
            Command::ExtDisplay => Some(if yes { "需要独立显卡" } else { "不需要独立显卡" }),
            Command::RuntimePm => Some(if yes { "支持" } else { "不支持" }),
            _ => None,
        }
    }
}

/// The effective user ID field of a `/proc/self/status` line: the third
/// word of the first line that starts with `Uid:`.
pub open spec fn status_euid(status: Seq<char>) -> Option<Seq<char>> {
    if exists|i: int| 0 <= i < lines_of(status).len() && starts_with(#[trigger] lines_of(status)[i], "Uid:"@) {
        let i = choose|i: int|
            0 <= i < lines_of(status).len() && starts_with(#[trigger] lines_of(status)[i], "Uid:"@) && forall|j: int|
                0 <= j < i ==> !starts_with(#[trigger] lines_of(status)[j], "Uid:"@);
        if words(lines_of(status)[i]).len() > 2 {
            Some(words(lines_of(status)[i])[2])
        } else {
            None
        }
    } else {
        None
    }
}

/// Whether `/proc/self/status` shows effective user 0; `None` when it has
/// no usable `Uid:` line.
pub fn euid_is_root(status: &str) -> (r: Option<bool>)
    ensures
        r == match status_euid(status@) {
            Some(u) => Some(u == "0"@),
            None => None::<bool>,
        },
{
    let v = chars_of(status);
    let lines = lines_chars(&v);
    let mut k: usize = 0;
    while k < lines.len()
        invariant
            k <= lines.len(),
            v@ == status@,
            views(lines@) == lines_of(status@),
            forall|j: int| 0 <= j < k ==> !starts_with(#[trigger] lines_of(status@)[j], "Uid:"@),
        decreases lines.len() - k,
    {
        proof {
            assert(views(lines@)[k as int] == lines@[k as int]@);
        }
        if starts_with_str(&lines[k], "Uid:") {
            let ws = words_chars(&lines[k]);
            proof {
                assert(views(ws@).len() == ws@.len());
                let i = choose|i: int|
                    0 <= i < lines_of(status@).len() && starts_with(#[trigger] lines_of(status@)[i], "Uid:"@) && forall|j: int|
                        0 <= j < i ==> !starts_with(#[trigger] lines_of(status@)[j], "Uid:"@);
                assert(exists|i: int| 0 <= i < lines_of(status@).len() && starts_with(#[trigger] lines_of(status@)[i], "Uid:"@));
                if i < k {
                    assert(!starts_with(lines_of(status@)[i], "Uid:"@));
                }
                if i > k {
                    assert(starts_with(lines_of(status@)[k as int], "Uid:"@));
                }
                assert(i == k);
            }
            if ws.len() > 2 {
                proof {
                    assert(views(ws@)[2] == ws@[2]@);
                }
                return Some(chars_eq_str(&ws[2], "0"));
            }
            return None;
        }
        k += 1;
    }
    proof {
        if exists|i: int| 0 <= i < lines_of(status@).len() && starts_with(#[trigger] lines_of(status@)[i], "Uid:"@) {
            let i = choose|i: int| 0 <= i < lines_of(status@).len() && starts_with(#[trigger] lines_of(status@)[i], "Uid:"@);
            assert(i < k);
        }
    }
    None
}

/// Whether the output of `id -u` is user 0.
pub fn id_output_is_root(out: &str) -> (r: bool)
    ensures
        r == (trim(out@) == "0"@),
{
    chars_eq_str(&trim_chars(&chars_of(out)), "0")
}

} // verus!
