//! The privileged helper as the daemon sees it.

use vstd::prelude::*;
use vstd::string::*;
use crate::text::{occurs, same_text, stands_at};

verus! {

/// The helper's systemd unit.
pub const HELPER_UNIT: &'static str = "konedrive-helper.service";

/// How often systemd is asked again while there is no link, in seconds.
pub const RECHECK: u64 = 30;

/// How the helper stands.
#[derive(Debug, Clone, Copy, PartialEq, Eq, Structural)]
pub enum HelperState {
    /// The daemon holds a link to the helper: files download when opened.
    Connected,
    /// systemd knows no such unit.
    NotInstalled,
    /// Installed, and not running.
    Stopped,
    /// The service failed, or its unit could not be loaded.
    Failed,
    /// No link, and systemd could not be asked — or says the helper runs, and
    /// the daemon is not connected to it yet.
    Unknown,
}

impl Default for HelperState {
    fn default() -> (r: Self)
        ensures
            r == HelperState::Unknown,
    {
        HelperState::Unknown
    }
}

/// A state's name.
pub open spec fn state_name(s: HelperState) -> Seq<char> {
    match s {
        HelperState::Connected => "connected"@,
        HelperState::NotInstalled => "not-installed"@,
        HelperState::Stopped => "stopped"@,
        HelperState::Failed => "failed"@,
        HelperState::Unknown => "unknown"@,
    }
}

/// What a folder that waits for the helper says.
pub open spec fn advice_of(s: HelperState) -> Option<Seq<char>> {
    match s {
        HelperState::Connected => None,
        HelperState::NotInstalled => Some(
            "the konedrive helper is not installed; once it is, start it with: sudo systemctl start konedrive-helper"@,
        ),
        HelperState::Stopped => Some(
            "the konedrive helper is not running; start it with: sudo systemctl start konedrive-helper"@,
        ),
        HelperState::Failed => Some(
            "the konedrive helper failed; start it again with: sudo systemctl start konedrive-helper"@,
        ),
        HelperState::Unknown => Some(
            "the konedrive helper is not connected; start it with: sudo systemctl start konedrive-helper"@,
        ),
    }
}

/// The state systemd's `LoadState` and `ActiveState` of the unit stand for,
/// when the daemon has no link.
pub open spec fn unit_state(load: Seq<char>, active: Seq<char>) -> HelperState {
    if load == "not-found"@ {
        HelperState::NotInstalled
    } else if active == "failed"@ || load == "error"@ || load == "bad-setting"@ {
        HelperState::Failed
    } else if active == "inactive"@ || active == "deactivating"@ {
        HelperState::Stopped
    } else {
        HelperState::Unknown
    }
}

/// How the helper stands: `linked`, the daemon holds a link to it; otherwise as
/// systemd says, when it could be asked.
pub open spec fn helper_state(linked: bool, states: Option<(Seq<char>, Seq<char>)>) -> HelperState {
    if linked {
        HelperState::Connected
    } else {
        match states {
            Some((load, active)) => unit_state(load, active),
            None => HelperState::Unknown,
        }
    }
}

impl HelperState {
    pub fn as_str(self) -> (r: &'static str)
        ensures
            r@ == state_name(self),
    {
        match self {
            HelperState::Connected => "connected",
            HelperState::NotInstalled => "not-installed",
            HelperState::Stopped => "stopped",
            HelperState::Failed => "failed",
            HelperState::Unknown => "unknown",
        }
    }

    /// What a folder that waits for the helper says: what the state means and
    /// how to start the helper. Nothing when connected.
    pub fn advice(self) -> (r: Option<&'static str>)
        ensures
            match r {
                Some(text) => advice_of(self) == Some(text@),
                None => advice_of(self) is None,
            },
    {
        match self {
            HelperState::Connected => None,
            HelperState::NotInstalled => Some(
                "the konedrive helper is not installed; once it is, start it with: sudo systemctl start konedrive-helper",
            ),
            HelperState::Stopped => Some(
                "the konedrive helper is not running; start it with: sudo systemctl start konedrive-helper",
            ),
            HelperState::Failed => Some(
                "the konedrive helper failed; start it again with: sudo systemctl start konedrive-helper",
            ),
            HelperState::Unknown => Some(
                "the konedrive helper is not connected; start it with: sudo systemctl start konedrive-helper",
            ),
        }
    }

    /// The state systemd's `LoadState` and `ActiveState` of the unit stand
    /// for, when the daemon has no link.
    pub fn of_unit(load: &str, active: &str) -> (r: Self)
        ensures
            r == unit_state(load@, active@),
    {
        if same_text(load, "not-found") {
            HelperState::NotInstalled
        } else if same_text(active, "failed") || same_text(load, "error") || same_text(
            load,
            "bad-setting",
        ) {
            HelperState::Failed
        } else if same_text(active, "inactive") || same_text(active, "deactivating") {
            HelperState::Stopped
        } else {
            HelperState::Unknown
        }
    }

    /// How the helper stands: `linked`, the daemon holds a link to it;
    /// otherwise as systemd says, when it could be asked.
    pub fn of(linked: bool, states: &Option<(String, String)>) -> (r: Self)
        ensures
            r == if linked {
                HelperState::Connected
            } else {
                match states {
                    Some((load, active)) => unit_state(load@, active@),
                    None => HelperState::Unknown,
                }
            },
            r == helper_state(
                linked,
                match states {
                    Some((load, active)) => Some((load@, active@)),
                    None => None,
                },
            ),
    {
        if linked {
            return HelperState::Connected;
        }
        match states {
            Some((load, active)) => HelperState::of_unit(load.as_str(), active.as_str()),
            None => HelperState::Unknown,
        }
    }
}

/// How the helper's unit stands, as systemd says.
pub trait HelperUnit {
    /// The unit's `LoadState` and `ActiveState`; nothing when systemd cannot be
    /// asked.
    fn states(&self) -> (r: Option<(String, String)>);
}

/// Asks nobody, and so knows nothing.
pub struct NotAsked;

impl HelperUnit for NotAsked {
    fn states(&self) -> (r: Option<(String, String)>)
        ensures
            r is None,
    {
        None
    }
}

/// How systemd is asked: about which unit, and how long an answer may take, in
/// seconds.
#[derive(Debug)]
pub struct Systemd {
    pub unit: String,
    pub timeout: u64,
}

impl Default for Systemd {
    fn default() -> (r: Self)
        ensures
            r.unit@ == HELPER_UNIT@,
            r.timeout == 5,
    {
        Systemd { unit: HELPER_UNIT.to_owned(), timeout: 5 }
    }
}

/// What systemd says of a unit it has no file for.
pub fn no_such_unit() -> (r: (String, String))
    ensures
        r.0@ == "not-found"@,
        r.1@ == "inactive"@,
{
    ("not-found".to_owned(), "inactive".to_owned())
}

/// A unit systemd has no file for is not installed, whatever else it says.
pub proof fn law_a_missing_unit_is_not_installed(active: Seq<char>)
    ensures
        unit_state("not-found"@, active) == HelperState::NotInstalled,
{
}

/// A folder says what to do exactly while the helper is not connected, and what
/// it says holds how to start the helper.
pub proof fn law_a_folder_without_a_helper_says_how_to_start_it(s: HelperState)
    ensures
        advice_of(s) is None <==> s == HelperState::Connected,
        advice_of(s) matches Some(text) ==> occurs(text, "sudo systemctl start konedrive-helper"@),
{
    let command = "sudo systemctl start konedrive-helper"@;
    reveal_strlit("sudo systemctl start konedrive-helper");
    reveal_strlit(
        "the konedrive helper is not installed; once it is, start it with: sudo systemctl start konedrive-helper",
    );
    reveal_strlit(
        "the konedrive helper is not running; start it with: sudo systemctl start konedrive-helper",
    );
    reveal_strlit(
        "the konedrive helper failed; start it again with: sudo systemctl start konedrive-helper",
    );
    reveal_strlit(
        "the konedrive helper is not connected; start it with: sudo systemctl start konedrive-helper",
    );
    if let Some(text) = advice_of(s) {
        let i = text.len() - command.len();
        assert(text.subrange(i, text.len() as int) =~= command);
        assert(stands_at(text, command, i));
    }
}

} // verus!
