//! The quick-access row: the power menu with its fixed actions, and the
//! wireless toggle. Only the decisions live here — which command each menu
//! item runs and which label the toggle shows; rendering and spawning are the
//! caller's job.

use vstd::prelude::*;

verus! {

/// An icon handle, resolved to a bundled asset path.
#[derive(Clone, Copy, PartialEq, Eq, Structural, Debug)]
pub enum Icon {
    Lock,
    Power,
    Restart,
    Search,
    Sleep,
}

/// The asset file an icon is drawn from.
pub open spec fn spec_asset_path(i: Icon) -> Seq<char> {
    match i {
        Icon::Lock => "lock.svg"@,
        Icon::Power => "power.svg"@,
        Icon::Restart => "restart.svg"@,
        Icon::Search => "search.svg"@,
        Icon::Sleep => "sleep.svg"@,
    }
}

impl Icon {
    /// The bundled asset file this icon is drawn from.
    pub fn asset_path(&self) -> (r: &'static str)
        ensures
            r@ == spec_asset_path(*self),
    {
        match self {
            Icon::Lock => "lock.svg",
            Icon::Power => "power.svg",
            Icon::Restart => "restart.svg",
            Icon::Search => "search.svg",
            Icon::Sleep => "sleep.svg",
        }
    }
}

/// One power-menu item: its identifier, its label, its icon, and the
/// command it runs.
pub struct PowerAction {
    pub id: String,
    pub label: String,
    pub icon: Icon,
    pub program: String,
    pub arg: String,
}

/// Whether a power action is exactly the given item.
pub open spec fn is_power_action(
    a: PowerAction,
    id: Seq<char>,
    label: Seq<char>,
    icon: Icon,
    program: Seq<char>,
    arg: Seq<char>,
) -> bool {
    a.id@ == id && a.label@ == label && a.icon == icon && a.program@ == program && a.arg@ == arg
}

/// The power menu: lock, sleep, shut down and restart, in that order.
pub struct PowerOptions {
    actions: Vec<PowerAction>,
}

impl PowerOptions {
    /// The menu's items.
    pub closed spec fn spec_actions(&self) -> Seq<PowerAction> {
        self.actions@
    }

    /// The fixed menu: locking goes through the session manager, the other
    /// three through the system manager.
    pub fn new() -> (r: Self)
        ensures
            r.spec_actions().len() == 4,
            is_power_action(
                r.spec_actions()[0],
                "power-option-lock"@,
                "Lock"@,
                Icon::Lock,
                "loginctl"@,
                "lock-session"@,
            ),
            is_power_action(
                r.spec_actions()[1],
                "power-option-sleep"@,
                "Sleep"@,
                Icon::Sleep,
                "systemctl"@,
                "suspend"@,
            ),
            is_power_action(
                r.spec_actions()[2],
                "power-option-shut-down"@,
                "Shut down"@,
                Icon::Power,
                "systemctl"@,
                "poweroff"@,
            ),
            is_power_action(
                r.spec_actions()[3],
                "power-option-restart"@,
                "Restart"@,
                Icon::Restart,
                "systemctl"@,
                "reboot"@,
            ),
    {
        let mut actions: Vec<PowerAction> = Vec::new();
        actions.push(
            PowerAction {
                id: String::from_str("power-option-lock"),
                label: String::from_str("Lock"),
                icon: Icon::Lock,
                program: String::from_str("loginctl"),
                arg: String::from_str("lock-session"),
            },
        );
        actions.push(
            PowerAction {
                id: String::from_str("power-option-sleep"),
                label: String::from_str("Sleep"),
                icon: Icon::Sleep,
                program: String::from_str("systemctl"),
                arg: String::from_str("suspend"),
            },
        );
        actions.push(
            PowerAction {
                id: String::from_str("power-option-shut-down"),
                label: String::from_str("Shut down"),
                icon: Icon::Power,
                program: String::from_str("systemctl"),
                arg: String::from_str("poweroff"),
            },
        );
        actions.push(
            PowerAction {
                id: String::from_str("power-option-restart"),
                label: String::from_str("Restart"),
                icon: Icon::Restart,
                program: String::from_str("systemctl"),
                arg: String::from_str("reboot"),
            },
        );
        PowerOptions { actions }
    }

    /// The menu's items, for rendering.
    pub fn actions(&self) -> (r: &Vec<PowerAction>)
        ensures
            r@ == self.spec_actions(),
    {
        &self.actions
    }
}

/// The power entry of the quick-access row: it shows the power menu.
pub struct PowerQuickAccess {
    menu: PowerOptions,
}

impl PowerQuickAccess {
    /// The menu this quick access opens.
    pub closed spec fn spec_menu(&self) -> PowerOptions {
        self.menu
    }

    pub fn new() -> (r: Self)
        ensures
            r.spec_menu().spec_actions().len() == 4,
            is_power_action(
                r.spec_menu().spec_actions()[0],
                "power-option-lock"@,
                "Lock"@,
                Icon::Lock,
                "loginctl"@,
                "lock-session"@,
            ),
            is_power_action(
                r.spec_menu().spec_actions()[1],
                "power-option-sleep"@,
                "Sleep"@,
                Icon::Sleep,
                "systemctl"@,
                "suspend"@,
            ),
            is_power_action(
                r.spec_menu().spec_actions()[2],
                "power-option-shut-down"@,
                "Shut down"@,
                Icon::Power,
                "systemctl"@,
                "poweroff"@,
            ),
            is_power_action(
                r.spec_menu().spec_actions()[3],
                "power-option-restart"@,
                "Restart"@,
                Icon::Restart,
                "systemctl"@,
                "reboot"@,
            ),
    {
        PowerQuickAccess { menu: PowerOptions::new() }
    }

    /// The menu this quick access opens.
    pub fn menu(&self) -> (r: &PowerOptions)
        ensures
            r == self.spec_menu(),
    {
        &self.menu
    }
}

/// The wireless entry of the quick-access row: it lists networks and offers
/// a toggle whose label depends on whether wireless is enabled.
pub struct WifiQuickAccess {}

impl WifiQuickAccess {
    pub fn new() -> (r: Self) {
        WifiQuickAccess {  }
    }

    /// The label of the wireless toggle: it offers to disable an enabled
    /// radio and to enable a disabled one.
    pub fn toggle_label(&self, enabled: bool) -> (r: &'static str)
        ensures
            enabled ==> r@ == "Disable Wi-Fi"@,
            !enabled ==> r@ == "Enable Wi-Fi"@,
    {
        if enabled {
            "Disable Wi-Fi"
        } else {
            "Enable Wi-Fi"
        }
    }
}

} // verus!
