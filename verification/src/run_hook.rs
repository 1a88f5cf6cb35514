use vstd::prelude::*;

verus! {

/// `XfsmRunHook`, the trigger an autostart entry is started on.
///
/// The position of a variant is the integer the `RunHook` key of a
/// `.desktop` file holds, and [`RunHook::nick`] gives the label shown for it.
#[derive(Clone, Copy, Debug, PartialEq, Eq, Structural)]
pub enum RunHook {
    Login,
    Logout,
    Shutdown,
    Restart,
    Suspend,
    Hibernate,
    HybridSleep,
    SwitchUser,
}

impl RunHook {
    /// The position of the hook in `GEnumValue` order.
    pub open spec fn index(self) -> int {
        match self {
            RunHook::Login => 0,
            RunHook::Logout => 1,
            RunHook::Shutdown => 2,
            RunHook::Restart => 3,
            RunHook::Suspend => 4,
            RunHook::Hibernate => 5,
            RunHook::HybridSleep => 6,
            RunHook::SwitchUser => 7,
        }
    }

    /// The hook at position `i`, `Login` (the default) for any other value.
    pub open spec fn at(i: int) -> RunHook {
        if i == 1 {
            RunHook::Logout
        } else if i == 2 {
            RunHook::Shutdown
        } else if i == 3 {
            RunHook::Restart
        } else if i == 4 {
            RunHook::Suspend
        } else if i == 5 {
            RunHook::Hibernate
        } else if i == 6 {
            RunHook::HybridSleep
        } else if i == 7 {
            RunHook::SwitchUser
        } else {
            RunHook::Login
        }
    }

    /// The label of the hook, `GEnumValue.value_nick`.
    pub open spec fn nick_view(self) -> Seq<char> {
        match self {
            RunHook::Login => "on login"@,
            RunHook::Logout => "on logout"@,
            RunHook::Shutdown => "on shutdown"@,
            RunHook::Restart => "on restart"@,
            RunHook::Suspend => "on suspend"@,
            RunHook::Hibernate => "on hibernate"@,
            RunHook::HybridSleep => "on hybrid sleep"@,
            RunHook::SwitchUser => "on switch user"@,
        }
    }

    /// Every hook in `GEnumValue` order, the order the combo boxes list them in.
    pub fn all() -> (r: [RunHook; 8])
        ensures
            forall|i: int| 0 <= i < 8 ==> #[trigger] r@[i] == RunHook::at(i),
    {
        [
            RunHook::Login,
            RunHook::Logout,
            RunHook::Shutdown,
            RunHook::Restart,
            RunHook::Suspend,
            RunHook::Hibernate,
            RunHook::HybridSleep,
            RunHook::SwitchUser,
        ]
    }

    /// `g_enum_get_value (klass, value)`, falling back to `Login` for a value
    /// no longer in the enum.
    pub fn from_value(value: i32) -> (r: RunHook)
        ensures
            r == RunHook::at(value as int),
            0 <= value < 8 ==> r.index() == value,
            !(0 <= value < 8) ==> r == RunHook::Login,
    {
        match value {
            1 => RunHook::Logout,
            2 => RunHook::Shutdown,
            3 => RunHook::Restart,
            4 => RunHook::Suspend,
            5 => RunHook::Hibernate,
            6 => RunHook::HybridSleep,
            7 => RunHook::SwitchUser,
            _ => RunHook::Login,
        }
    }

    /// The position of the hook, which is what the `RunHook` key holds.
    pub fn value(self) -> (r: i32)
        ensures
            r == self.index(),
            0 <= r < 8,
    {
        match self {
            RunHook::Login => 0,
            RunHook::Logout => 1,
            RunHook::Shutdown => 2,
            RunHook::Restart => 3,
            RunHook::Suspend => 4,
            RunHook::Hibernate => 5,
            RunHook::HybridSleep => 6,
            RunHook::SwitchUser => 7,
        }
    }

    /// `GEnumValue.value_nick`.
    pub fn nick(self) -> (r: &'static str)
        ensures
            r@ == self.nick_view(),
    {
        match self {
            RunHook::Login => "on login",
            RunHook::Logout => "on logout",
            RunHook::Shutdown => "on shutdown",
            RunHook::Restart => "on restart",
            RunHook::Suspend => "on suspend",
            RunHook::Hibernate => "on hibernate",
            RunHook::HybridSleep => "on hybrid sleep",
            RunHook::SwitchUser => "on switch user",
        }
    }
}

impl Default for RunHook {
    /// `XFSM_RUN_HOOK_LOGIN`.
    fn default() -> (r: RunHook)
        ensures
            r == RunHook::Login,
    {
        RunHook::Login
    }
}

/// What is written to the `RunHook` key reads back as the same hook.
pub proof fn lemma_value_round_trip(hook: RunHook)
    ensures
        RunHook::at(hook.index()) == hook,
        0 <= hook.index() < 8,
{
}

/// The position identifies the hook: two hooks with one value are one hook.
pub proof fn lemma_value_is_injective(a: RunHook, b: RunHook)
    ensures
        a.index() == b.index() <==> a == b,
{
}

/// Every hook has a label of its own.
pub proof fn lemma_nicks_are_distinct(a: RunHook, b: RunHook)
    ensures
        a != b ==> a.nick_view() != b.nick_view(),
{
    reveal_strlit("on login");
    reveal_strlit("on logout");
    reveal_strlit("on shutdown");
    reveal_strlit("on restart");
    reveal_strlit("on suspend");
    reveal_strlit("on hibernate");
    reveal_strlit("on hybrid sleep");
    reveal_strlit("on switch user");
    if a != b && a.nick_view() == b.nick_view() {
        assert(a.nick_view().len() == b.nick_view().len());
        assert(a.nick_view()[3] == b.nick_view()[3]);
        assert(a.nick_view()[4] == b.nick_view()[4]);
    }
}

} // verus!
