//! Where the service keeps its files, and the check it runs on them before
//! starting.

use vstd::prelude::*;

use crate::text::{lemma_views_push, push_str, views};

verus! {

/// The system wide autostart folder, which must exist.
pub const XDG_AUTOSTART: &'static str = "/etc/xdg/autostart";

/// The lock screen helper installed under `/usr/local`.
pub const LOCK_SCREEN_LOCAL_FILE: &'static str = "/usr/local/libexec/lock_screen";

/// The lock screen helper installed system wide.
pub const LOCK_SCREEN_GLOBAL_FILE: &'static str = "/usr/libexec/lock_screen";

/// `$XDG_<kind>_HOME` with a slash appended, `home` followed by `fallback`
/// standing in for it when it is unset.
pub open spec fn base_dir(home: Seq<char>, var: Option<Seq<char>>, fallback: Seq<char>) -> Seq<char> {
    match var {
        Some(v) => v + seq!['/'],
        None => home + fallback + seq!['/'],
    }
}

/// What the probe of one file found.
#[derive(Clone, Copy, Debug, PartialEq, Eq, Structural)]
pub struct FileProbe {
    pub exists: bool,
    /// A regular file with one of its execute bits set.
    pub executable: bool,
}

/// The files of the service.
#[derive(Clone, Debug)]
pub struct Data {
    pub xdg_home_autostart: String,
    pub brightness_file: String,
    pub lock_screen_file: String,
}

fn with_suffix(base: &str, suffix: &str) -> (r: String)
    ensures
        r@ == base@ + suffix@,
{
    let mut r = base.to_owned();
    push_str(&mut r, suffix);
    r
}

fn dir_of(home: &str, var: Option<&str>, fallback: &str) -> (r: String)
    ensures
        r@ == base_dir(
            home@,
            match var {
                Some(v) => Some(v@),
                None => None,
            },
            fallback@,
        ),
{
    let mut r = match var {
        Some(v) => v.to_owned(),
        None => with_suffix(home, fallback),
    };
    r.push('/');
    r
}

/// A file or folder a tool needs, as found on disk.
#[derive(Clone, Debug)]
pub struct Requirement {
    pub exists: bool,
    /// A missing mandatory one stops the tool; a missing optional one is a
    /// note.
    pub mandatory: bool,
    /// What is said when it is missing.
    pub message: String,
}

/// The outcome of checking `reqs` in order: the message of the first
/// missing mandatory one, else the messages of the missing optional ones.
pub open spec fn requirements_verdict(reqs: Seq<Requirement>) -> Result<Seq<Seq<char>>, Seq<char>>
    decreases reqs.len(),
{
    if reqs.len() == 0 {
        Ok(seq![])
    } else {
        let r = reqs[0];
        if !r.exists && r.mandatory {
            Err(r.message@)
        } else {
            match requirements_verdict(reqs.drop_first()) {
                Ok(notes) => Ok(if !r.exists {
                    seq![r.message@] + notes
                } else {
                    notes
                }),
                Err(e) => Err(e),
            }
        }
    }
}

/// Checks `reqs` in order: `Err` with the message of the first missing
/// mandatory one, else `Ok` with the messages of the missing optional ones,
/// to be logged.
pub fn check_requirements(reqs: &[Requirement]) -> (r: Result<Vec<String>, String>)
    ensures
        match r {
            Ok(notes) => requirements_verdict(reqs@) == Ok::<Seq<Seq<char>>, Seq<char>>(
                views(notes@),
            ),
            Err(e) => requirements_verdict(reqs@) == Err::<Seq<Seq<char>>, Seq<char>>(e@),
        },
{
    let mut notes: Vec<String> = Vec::new();
    let mut i: usize = 0;
    assert(reqs@.skip(0) =~= reqs@);
    assert(views(notes@) =~= Seq::<Seq<char>>::empty());
    while i < reqs.len()
        invariant
            i <= reqs@.len(),
            match requirements_verdict(reqs@.skip(i as int)) {
                Ok(rest) => requirements_verdict(reqs@) == Ok::<Seq<Seq<char>>, Seq<char>>(
                    views(notes@) + rest,
                ),
                Err(e) => requirements_verdict(reqs@) == Err::<Seq<Seq<char>>, Seq<char>>(e),
            },
        decreases reqs@.len() - i,
    {
        let ghost tail = reqs@.skip(i as int);
        assert(tail[0] == reqs@[i as int]);
        assert(tail.drop_first() =~= reqs@.skip(i + 1));
        let req = &reqs[i];
        if !req.exists {
            if req.mandatory {
                return Err(req.message.clone());
            }
            let note = req.message.clone();
            proof {
                lemma_views_push(notes@, note);
                match requirements_verdict(reqs@.skip(i + 1)) {
                    Ok(rest) => {
                        assert(views(notes@.push(note)) + rest =~= views(notes@) + (seq![note@]
                            + rest));
                    },
                    Err(_) => {},
                }
            }
            notes.push(note);
        }
        i = i + 1;
    }
    assert(reqs@.skip(i as int) =~= Seq::<Requirement>::empty());
    assert(views(notes@) + Seq::<Seq<char>>::empty() =~= views(notes@));
    Ok(notes)
}

/// The folder checks both tools run: the system autostart folder must be
/// there; a missing user one is only worth a note. `Ok` holds the notes.
pub open spec fn autostart_dirs_verdict(
    autostart_exists: bool,
    home_autostart: Seq<char>,
    home_autostart_exists: bool,
) -> Result<Seq<Seq<char>>, Seq<char>> {
    if !autostart_exists {
        Err("XDG autostart folder not found: "@ + XDG_AUTOSTART@)
    } else if !home_autostart_exists {
        Ok(seq!["XDG home autostart folder not found: "@ + home_autostart])
    } else {
        Ok(seq![])
    }
}

/// The lock screen helper the service runs: the user's own, else the one
/// under `/usr/local`, else the system one, the first that exists.
pub open spec fn lock_screen_choice(
    user_file: Seq<char>,
    user: FileProbe,
    local: FileProbe,
    global: FileProbe,
) -> Option<(Seq<char>, bool)> {
    if user.exists {
        Some((user_file, user.executable))
    } else if local.exists {
        Some((LOCK_SCREEN_LOCAL_FILE@, local.executable))
    } else if global.exists {
        Some((LOCK_SCREEN_GLOBAL_FILE@, global.executable))
    } else {
        None
    }
}

/// The outcome of the service's check: the notes to log, or the error that
/// stops it.
pub open spec fn persistence_verdict(
    autostart_exists: bool,
    home_autostart: Seq<char>,
    home_autostart_exists: bool,
    lock_screen_file: Seq<char>,
    user: FileProbe,
    local: FileProbe,
    global: FileProbe,
) -> Result<Seq<Seq<char>>, Seq<char>> {
    match autostart_dirs_verdict(autostart_exists, home_autostart, home_autostart_exists) {
        Err(e) => Err(e),
        Ok(notes) => match lock_screen_choice(lock_screen_file, user, local, global) {
            None => Err("Local lock screen file not found: "@ + LOCK_SCREEN_LOCAL_FILE@),
            Some((_, executable)) => if !executable {
                Err("Lock screen file is not executable: "@ + lock_screen_file)
            } else {
                Ok(notes)
            },
        },
    }
}

/// The folder checks of both tools: `Ok` with the notes to log, `Err` with
/// the error that stops the tool.
pub fn check_autostart_dirs(
    autostart_exists: bool,
    home_autostart: &str,
    home_autostart_exists: bool,
) -> (r: Result<Vec<String>, String>)
    ensures
        match r {
            Ok(notes) => autostart_dirs_verdict(
                autostart_exists,
                home_autostart@,
                home_autostart_exists,
            ) == Ok::<Seq<Seq<char>>, Seq<char>>(views(notes@)),
            Err(e) => autostart_dirs_verdict(autostart_exists, home_autostart@, home_autostart_exists)
                == Err::<Seq<Seq<char>>, Seq<char>>(e@),
        },
{
    let mut reqs: Vec<Requirement> = Vec::new();
    reqs.push(
        Requirement {
            exists: autostart_exists,
            mandatory: true,
            message: with_suffix("XDG autostart folder not found: ", XDG_AUTOSTART),
        },
    );
    reqs.push(
        Requirement {
            exists: home_autostart_exists,
            mandatory: false,
            message: with_suffix("XDG home autostart folder not found: ", home_autostart),
        },
    );
    proof {
        let t = reqs@.drop_first();
        assert(t.drop_first() =~= Seq::<Requirement>::empty());
        assert(requirements_verdict(t.drop_first()) == Ok::<Seq<Seq<char>>, Seq<char>>(seq![]));
        if home_autostart_exists {
            assert(requirements_verdict(t) == Ok::<Seq<Seq<char>>, Seq<char>>(seq![]));
        } else {
            assert(seq![t[0].message@] + Seq::<Seq<char>>::empty() =~= seq![t[0].message@]);
        }
        assert(requirements_verdict(reqs@) == autostart_dirs_verdict(
            autostart_exists,
            home_autostart@,
            home_autostart_exists,
        ));
    }
    check_requirements(&reqs)
}

impl Data {
    /// The files of the service for the user whose home is `home`, with
    /// `$XDG_CONFIG_HOME` and `$XDG_STATE_HOME` as given (`None` when unset).
    pub fn from_env(home: &str, config_home: Option<&str>, state_home: Option<&str>) -> (r: Data)
        ensures
            r.xdg_home_autostart@ == home@ + "/.config/autostart"@,
            r.brightness_file@ == base_dir(
                home@,
                match state_home {
                    Some(v) => Some(v@),
                    None => None,
                },
                "/.local/state"@,
            ) + "xfce4_niri_brightness"@,
            r.lock_screen_file@ == base_dir(
                home@,
                match config_home {
                    Some(v) => Some(v@),
                    None => None,
                },
                "/.config"@,
            ) + "niri/bin/lock_screen"@,
    {
        let config = dir_of(home, config_home, "/.config");
        let state = dir_of(home, state_home, "/.local/state");
        Data {
            xdg_home_autostart: with_suffix(home, "/.config/autostart"),
            brightness_file: with_suffix(state.as_str(), "xfce4_niri_brightness"),
            lock_screen_file: with_suffix(config.as_str(), "niri/bin/lock_screen"),
        }
    }

    /// The autostart folder of the user whose home is `home`, which is all
    /// the autostart editor keeps.
    pub fn home_autostart(home: &str) -> (r: String)
        ensures
            r@ == home@ + "/.config/autostart"@,
    {
        with_suffix(home, "/.config/autostart")
    }

    /// The check the service runs before starting, on what was found on
    /// disk: the autostart folders, then the lock screen helper (the user's
    /// own `lock_screen_file`, the one under `/usr/local`, the system one).
    /// On success the helper chosen becomes `lock_screen_file` and the notes
    /// to log are returned.
    pub fn check_persistence(
        &mut self,
        autostart_exists: bool,
        home_autostart_exists: bool,
        user: FileProbe,
        local: FileProbe,
        global: FileProbe,
    ) -> (r: Result<Vec<String>, String>)
        ensures
            match r {
                Ok(notes) => {
                    &&& persistence_verdict(
                        autostart_exists,
                        old(self).xdg_home_autostart@,
                        home_autostart_exists,
                        old(self).lock_screen_file@,
                        user,
                        local,
                        global,
                    ) == Ok::<Seq<Seq<char>>, Seq<char>>(views(notes@))
                    &&& lock_screen_choice(old(self).lock_screen_file@, user, local, global)
                        matches Some((chosen, _)) && final(self).lock_screen_file@ == chosen
                    &&& final(self).xdg_home_autostart == old(self).xdg_home_autostart
                    &&& final(self).brightness_file == old(self).brightness_file
                },
                Err(e) => {
                    &&& persistence_verdict(
                        autostart_exists,
                        old(self).xdg_home_autostart@,
                        home_autostart_exists,
                        old(self).lock_screen_file@,
                        user,
                        local,
                        global,
                    ) == Err::<Seq<Seq<char>>, Seq<char>>(e@)
                    &&& *final(self) == *old(self)
                },
            },
    {
        let notes = match check_autostart_dirs(
            autostart_exists,
            self.xdg_home_autostart.as_str(),
            home_autostart_exists,
        ) {
            Ok(notes) => notes,
            Err(e) => {
                return Err(e);
            },
        };
        let (chosen, executable) = if user.exists {
            (self.lock_screen_file.clone(), user.executable)
        } else if local.exists {
            (LOCK_SCREEN_LOCAL_FILE.to_owned(), local.executable)
        } else if global.exists {
            (LOCK_SCREEN_GLOBAL_FILE.to_owned(), global.executable)
        } else {
            return Err(with_suffix("Local lock screen file not found: ", LOCK_SCREEN_LOCAL_FILE));
        };
        if !executable {
            return Err(
                with_suffix("Lock screen file is not executable: ", self.lock_screen_file.as_str()),
            );
        }
        self.lock_screen_file = chosen;
        Ok(notes)
    }
}

} // verus!

verus! {

/// Why a data file cannot be used.
#[derive(Clone, Copy, Debug, PartialEq, Eq, Structural)]
pub enum StorageError {
    /// The path has no parent folder.
    NoParent,
    /// The parent folder does not exist.
    MissingFolder,
    /// The path is a folder.
    IsFolder,
}

/// What reading a data file comes to.
#[derive(Clone, Copy, Debug, PartialEq, Eq, Structural)]
pub enum ReadStep {
    /// Nothing stored yet: the type's default.
    UseDefault,
    /// Read and decode the file.
    Decode,
}

/// The checks both reading and writing a data file run first, in order.
pub open spec fn storage_error(has_parent: bool, parent_exists: bool, is_dir: bool) -> Option<StorageError> {
    if !has_parent {
        Some(StorageError::NoParent)
    } else if !parent_exists {
        Some(StorageError::MissingFolder)
    } else if is_dir {
        Some(StorageError::IsFolder)
    } else {
        None
    }
}

/// Whether a data file may be written, on what was found of its path.
pub fn write_check(has_parent: bool, parent_exists: bool, is_dir: bool) -> (r: Result<(), StorageError>)
    ensures
        match r {
            Ok(()) => storage_error(has_parent, parent_exists, is_dir) is None,
            Err(e) => storage_error(has_parent, parent_exists, is_dir) == Some(e),
        },
{
    if !has_parent {
        Err(StorageError::NoParent)
    } else if !parent_exists {
        Err(StorageError::MissingFolder)
    } else if is_dir {
        Err(StorageError::IsFolder)
    } else {
        Ok(())
    }
}

/// How a data file is read, on what was found of its path: a missing file
/// is no error, it reads as the default.
pub fn read_step(has_parent: bool, parent_exists: bool, is_dir: bool, exists: bool) -> (r: Result<
    ReadStep,
    StorageError,
>)
    ensures
        match r {
            Ok(step) => storage_error(has_parent, parent_exists, is_dir) is None && step == if exists {
                ReadStep::Decode
            } else {
                ReadStep::UseDefault
            },
            Err(e) => storage_error(has_parent, parent_exists, is_dir) == Some(e),
        },
{
    match write_check(has_parent, parent_exists, is_dir) {
        Err(e) => Err(e),
        Ok(()) => if exists {
            Ok(ReadStep::Decode)
        } else {
            Ok(ReadStep::UseDefault)
        },
    }
}

/// Whether an encoded value went to disk whole: encoding gave some bytes and
/// every one of them was written.
pub fn write_complete(encoded: usize, written: usize) -> (r: bool)
    ensures
        r == (encoded != 0 && written == encoded),
{
    encoded != 0 && written == encoded
}

} // verus!

verus! {

/// The files the first version of the service kept, all under the home
/// folder.
#[derive(Clone, Debug)]
pub struct LegacyData {
    pub niri_file: String,
    pub niri_d_folder: String,
    pub xdg_home_autostart: String,
    pub brightness_file: String,
}

impl LegacyData {
    /// The files of the first version of the service for the user whose
    /// home is `home`.
    pub fn from_home(home: &str) -> (r: LegacyData)
        ensures
            r.niri_file@ == home@ + "/.config/niri/config.kdl"@,
            r.niri_d_folder@ == home@ + "/.config/niri/niri.d"@,
            r.xdg_home_autostart@ == home@ + "/.config/autostart/"@,
            r.brightness_file@ == home@ + "/.local/state"@,
    {
        LegacyData {
            niri_file: with_suffix(home, "/.config/niri/config.kdl"),
            niri_d_folder: with_suffix(home, "/.config/niri/niri.d"),
            xdg_home_autostart: with_suffix(home, "/.config/autostart/"),
            brightness_file: with_suffix(home, "/.local/state"),
        }
    }

    /// What the first version checked before starting, in order: the niri
    /// config file and folder and the system autostart folder must exist,
    /// the user's autostart folder may be missing.
    pub fn requirements(
        &self,
        niri_file_exists: bool,
        niri_d_folder_exists: bool,
        autostart_exists: bool,
        home_autostart_exists: bool,
    ) -> (r: Vec<Requirement>)
        ensures
            r@.len() == 4,
            r@[0].exists == niri_file_exists && r@[0].mandatory && r@[0].message@
                == "Niri config file not found: "@ + self.niri_file@,
            r@[1].exists == niri_d_folder_exists && r@[1].mandatory && r@[1].message@
                == "Niri config folder not found: "@ + self.niri_d_folder@,
            r@[2].exists == autostart_exists && r@[2].mandatory && r@[2].message@
                == "XDG autostart folder not found: "@ + XDG_AUTOSTART@,
            r@[3].exists == home_autostart_exists && !r@[3].mandatory && r@[3].message@
                == "XDG home autostart folder not found: "@ + self.xdg_home_autostart@,
    {
        let mut r: Vec<Requirement> = Vec::new();
        r.push(
            Requirement {
                exists: niri_file_exists,
                mandatory: true,
                message: with_suffix("Niri config file not found: ", self.niri_file.as_str()),
            },
        );
        r.push(
            Requirement {
                exists: niri_d_folder_exists,
                mandatory: true,
                message: with_suffix("Niri config folder not found: ", self.niri_d_folder.as_str()),
            },
        );
        r.push(
            Requirement {
                exists: autostart_exists,
                mandatory: true,
                message: with_suffix("XDG autostart folder not found: ", XDG_AUTOSTART),
            },
        );
        r.push(
            Requirement {
                exists: home_autostart_exists,
                mandatory: false,
                message: with_suffix(
                    "XDG home autostart folder not found: ",
                    self.xdg_home_autostart.as_str(),
                ),
            },
        );
        r
    }
}

} // verus!
