//! The APatch path of the ext4 sysfs nuke: its settings and the `kp` command lines.

use vstd::prelude::*;
use crate::recovery::names;

verus! {

broadcast use vstd::string::group_string_axioms;

/// A setting from the environment, or its default when unset.
pub fn setting_or(value: Option<String>, default: &str) -> (r: String)
    ensures
        r@ == (match value {
            Some(v) => v@,
            None => default@,
        }),
{
    match value {
        Some(v) => v,
        None => default.to_owned(),
    }
}

/// The settings of an APatch nuke, each taken from its environment variable or defaulted.
pub struct ApatchNukeSettings {
    pub kp_bin: String,
    pub kpm_module: String,
    pub kpm_id: String,
    pub call_mode: String,
    pub control_name: String,
}

impl ApatchNukeSettings {
    pub fn from_env_values(
        kp_bin: Option<String>,
        kpm_module: Option<String>,
        kpm_id: Option<String>,
        call_mode: Option<String>,
        control_name: Option<String>,
    ) -> (r: Self)
        ensures
            r.kp_bin@ == (match kp_bin {
                Some(v) => v@,
                None => "/data/adb/ap/bin/kp"@,
            }),
            r.kpm_module@ == (match kpm_module {
                Some(v) => v@,
                None => "/data/adb/hybrid-mount/kpm/nuke_ext4_sysfs.kpm"@,
            }),
            r.kpm_id@ == (match kpm_id {
                Some(v) => v@,
                None => "nuke_ext4_sysfs"@,
            }),
            r.call_mode@ == (match call_mode {
                Some(v) => v@,
                None => "control"@,
            }),
            r.control_name@ == (match control_name {
                Some(v) => v@,
                None => "nuke_ext4_sysfs"@,
            }),
    {
        ApatchNukeSettings {
            kp_bin: setting_or(kp_bin, "/data/adb/ap/bin/kp"),
            kpm_module: setting_or(kpm_module, "/data/adb/hybrid-mount/kpm/nuke_ext4_sysfs.kpm"),
            kpm_id: setting_or(kpm_id, "nuke_ext4_sysfs"),
            call_mode: setting_or(call_mode, "control"),
            control_name: setting_or(control_name, "nuke_ext4_sysfs"),
        }
    }
}

/// The call mode is `nr`, ignoring ASCII case (`eq_ignore_ascii_case("nr")`).
pub open spec fn is_nr_mode(mode: Seq<char>) -> bool {
    mode.len() == 2 && (mode[0] == 'n' || mode[0] == 'N') && (mode[1] == 'r' || mode[1] == 'R')
}

/// Why an APatch nuke failed.
#[derive(Debug, PartialEq, Eq, Structural, Clone, Copy)]
pub enum NukeError {
    /// The `nr` call mode was chosen but no syscall number was given.
    NrMissing,
    /// The `kp` tool is not installed.
    KpMissing,
    /// `kp` could not be started to load the module.
    LoadSpawn,
    /// Loading the module exited unsuccessfully, with this exit code.
    LoadFailed(Option<i32>),
    /// `kp` could not be started to call the module.
    CallSpawn,
    /// `kp` could not be started to unload the module.
    UnloadSpawn,
    /// The call exited unsuccessfully, with this exit code.
    InvokeFailed(Option<i32>),
}

/// The arguments of the `kp` call that nukes `path`: through an unused
/// syscall number in `nr` mode, otherwise through the module's control.
pub fn kpm_call_args(call_mode: &str, nr: Option<&str>, control_name: &str, path: &str) -> (r: Result<
    Vec<String>,
    NukeError,
>)
    ensures
        is_nr_mode(call_mode@) && nr is None <==> r is Err,
        r is Err ==> r == Err::<Vec<String>, NukeError>(NukeError::NrMissing),
        r matches Ok(v) ==> names(v@) == (if is_nr_mode(call_mode@) {
            seq!["kpm"@, "call"@, nr->0@, path@]
        } else {
            seq!["kpm"@, "control"@, control_name@, path@]
        }),
{
    let mut chars: Vec<char> = Vec::new();
    for c in it: call_mode.chars()
        invariant
            chars@ == it.seq().take(it.index() as int),
    {
        chars.push(c);
    }
    assert(chars@ == call_mode@);
    let is_nr = chars.len() == 2 && (chars[0] == 'n' || chars[0] == 'N') && (chars[1] == 'r'
        || chars[1] == 'R');
    let mut v: Vec<String> = Vec::new();
    if is_nr {
        match nr {
            None => {
                return Err(NukeError::NrMissing);
            },
            Some(n) => {
                v.push("kpm".to_owned());
                v.push("call".to_owned());
                v.push(n.to_owned());
                v.push(path.to_owned());
            },
        }
    } else {
        v.push("kpm".to_owned());
        v.push("control".to_owned());
        v.push(control_name.to_owned());
        v.push(path.to_owned());
    }
    assert(names(v@) =~= (if is_nr_mode(call_mode@) {
        seq!["kpm"@, "call"@, nr->0@, path@]
    } else {
        seq!["kpm"@, "control"@, control_name@, path@]
    }));
    Ok(v)
}

/// How a `kp` command ended.
#[derive(Debug, PartialEq, Eq, Structural, Clone, Copy)]
pub enum CommandOutcome {
    /// The command could not be started.
    SpawnFailed,
    /// The command ran and exited.
    Exited { success: bool, code: Option<i32> },
}

/// Where an APatch nuke stands.
#[derive(Debug, Clone, Copy)]
pub enum NukePhase {
    /// Waiting to learn whether the `kp` tool exists.
    CheckTool,
    /// The module is being loaded.
    Loading,
    /// The module is being called on the path.
    Calling,
    /// The module is being unloaded; the call ended as recorded.
    Unloading(CommandOutcome),
    /// Finished, with this result.
    Done(Result<(), NukeError>),
}

/// The next outside work of an APatch nuke.
#[derive(Debug)]
pub enum NukeAction {
    /// Run `kp` with these arguments and report how it ended.
    Run(Vec<String>),
    /// The unload exited unsuccessfully with this code: only worth a warning.
    WarnUnload(Option<i32>),
    /// The nuke is over, with this result.
    Finish(Result<(), NukeError>),
}

pub open spec fn action_is_run(a: NukeAction, args: Seq<Seq<char>>) -> bool {
    a matches NukeAction::Run(v) && names(v@) == args
}

/// The result of the nuke once the module is unloaded: an unload that could not
/// start fails it; otherwise the call decides.
pub open spec fn after_unload(call: CommandOutcome, unload: CommandOutcome) -> Result<(), NukeError> {
    match unload {
        CommandOutcome::SpawnFailed => Err(NukeError::UnloadSpawn),
        CommandOutcome::Exited { .. } => match call {
            CommandOutcome::SpawnFailed => Err(NukeError::CallSpawn),
            CommandOutcome::Exited { success, code } => if success {
                Ok(())
            } else {
                Err(NukeError::InvokeFailed(code))
            },
        },
    }
}

/// An APatch nuke of one path: load the module with `kp`, call it on the path,
/// unload it, and report how the call went.
pub struct ApatchNuke {
    pub settings: ApatchNukeSettings,
    pub nr: Option<String>,
    pub path: String,
    pub phase: NukePhase,
}

impl ApatchNuke {
    pub fn new(settings: ApatchNukeSettings, nr: Option<String>, path: &str) -> (r: Self)
        ensures
            r.settings == settings,
            r.nr == nr,
            r.path@ == path@,
            r.phase == NukePhase::CheckTool,
    {
        ApatchNuke { settings, nr, path: path.to_owned(), phase: NukePhase::CheckTool }
    }

    /// After learning whether the `kp` tool exists: fail without it, otherwise load the module.
    pub fn tool_checked(&mut self, exists: bool) -> (a: NukeAction)
        requires
            old(self).phase == NukePhase::CheckTool,
        ensures
            final(self).settings == old(self).settings,
            final(self).nr == old(self).nr,
            final(self).path == old(self).path,
            !exists ==> final(self).phase == NukePhase::Done(Err(NukeError::KpMissing))
                && a == NukeAction::Finish(Err(NukeError::KpMissing)),
            exists ==> final(self).phase == NukePhase::Loading && action_is_run(
                a,
                seq!["kpm"@, "load"@, old(self).settings.kpm_module@],
            ),
    {
        if !exists {
            self.phase = NukePhase::Done(Err(NukeError::KpMissing));
            return NukeAction::Finish(Err(NukeError::KpMissing));
        }
        self.phase = NukePhase::Loading;
        let mut v: Vec<String> = Vec::new();
        v.push("kpm".to_owned());
        v.push("load".to_owned());
        v.push(self.settings.kpm_module.clone());
        assert(names(v@) =~= seq!["kpm"@, "load"@, self.settings.kpm_module@]);
        NukeAction::Run(v)
    }

    /// After the load: fail if it did not succeed, or if the `nr` mode has no
    /// number (then the module stays loaded); otherwise call the module.
    pub fn loaded(&mut self, outcome: CommandOutcome) -> (a: NukeAction)
        requires
            old(self).phase == NukePhase::Loading,
        ensures
            final(self).settings == old(self).settings,
            final(self).nr == old(self).nr,
            final(self).path == old(self).path,
            ({
                let s = old(self).settings;
                let fail = match outcome {
                    CommandOutcome::SpawnFailed => Some(NukeError::LoadSpawn),
                    CommandOutcome::Exited { success, code } => if !success {
                        Some(NukeError::LoadFailed(code))
                    } else if is_nr_mode(s.call_mode@) && old(self).nr is None {
                        Some(NukeError::NrMissing)
                    } else {
                        None
                    },
                };
                match fail {
                    Some(e) => final(self).phase == NukePhase::Done(Err(e)) && a
                        == NukeAction::Finish(Err(e)),
                    None => final(self).phase == NukePhase::Calling && action_is_run(
                        a,
                        if is_nr_mode(s.call_mode@) {
                            seq!["kpm"@, "call"@, old(self).nr->0@, old(self).path@]
                        } else {
                            seq!["kpm"@, "control"@, s.control_name@, old(self).path@]
                        },
                    ),
                }
            }),
    {
        match outcome {
            CommandOutcome::SpawnFailed => {
                self.phase = NukePhase::Done(Err(NukeError::LoadSpawn));
                NukeAction::Finish(Err(NukeError::LoadSpawn))
            },
            CommandOutcome::Exited { success, code } => {
                if !success {
                    self.phase = NukePhase::Done(Err(NukeError::LoadFailed(code)));
                    return NukeAction::Finish(Err(NukeError::LoadFailed(code)));
                }
                let nr = match &self.nr {
                    Some(n) => Some(n.as_str()),
                    None => None,
                };
                match kpm_call_args(
                    self.settings.call_mode.as_str(),
                    nr,
                    self.settings.control_name.as_str(),
                    self.path.as_str(),
                ) {
                    Err(e) => {
                        self.phase = NukePhase::Done(Err(e));
                        NukeAction::Finish(Err(e))
                    },
                    Ok(args) => {
                        self.phase = NukePhase::Calling;
                        NukeAction::Run(args)
                    },
                }
            },
        }
    }

    /// After the call, whatever its outcome: unload the module.
    pub fn called(&mut self, outcome: CommandOutcome) -> (a: NukeAction)
        requires
            old(self).phase == NukePhase::Calling,
        ensures
            final(self).settings == old(self).settings,
            final(self).nr == old(self).nr,
            final(self).path == old(self).path,
            final(self).phase == NukePhase::Unloading(outcome),
            action_is_run(a, seq!["kpm"@, "unload"@, old(self).settings.kpm_id@]),
    {
        self.phase = NukePhase::Unloading(outcome);
        let mut v: Vec<String> = Vec::new();
        v.push("kpm".to_owned());
        v.push("unload".to_owned());
        v.push(self.settings.kpm_id.clone());
        assert(names(v@) =~= seq!["kpm"@, "unload"@, self.settings.kpm_id@]);
        NukeAction::Run(v)
    }

    /// After the unload: the result of the nuke, and a warning when the unload
    /// exited unsuccessfully.
    pub fn unloaded(&mut self, outcome: CommandOutcome) -> (r: (Option<NukeAction>, Result<(), NukeError>))
        requires
            old(self).phase is Unloading,
        ensures
            final(self).settings == old(self).settings,
            final(self).nr == old(self).nr,
            final(self).path == old(self).path,
            r.1 == after_unload(old(self).phase->Unloading_0, outcome),
            final(self).phase == NukePhase::Done(r.1),
            r.0 == (match outcome {
                CommandOutcome::Exited { success, code } => if !success {
                    Some(NukeAction::WarnUnload(code))
                } else {
                    None
                },
                CommandOutcome::SpawnFailed => None,
            }),
    {
        let call = match self.phase {
            NukePhase::Unloading(c) => c,
            _ => CommandOutcome::SpawnFailed,
        };
        let (warn, result) = match outcome {
            CommandOutcome::SpawnFailed => (None, Err(NukeError::UnloadSpawn)),
            CommandOutcome::Exited { success, code } => {
                let warn = if !success {
                    Some(NukeAction::WarnUnload(code))
                } else {
                    None
                };
                let result = match call {
                    CommandOutcome::SpawnFailed => Err(NukeError::CallSpawn),
                    CommandOutcome::Exited { success: ok, code: c } => if ok {
                        Ok(())
                    } else {
                        Err(NukeError::InvokeFailed(c))
                    },
                };
                (warn, result)
            },
        };
        self.phase = NukePhase::Done(result);
        (warn, result)
    }
}

} // verus!
