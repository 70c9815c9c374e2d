//! The client actions a battle royale player can bind, and the devices each accepts.
use vstd::prelude::*;
use vstd::string::StringExecFns;

verus! {

pub const ACTION_MOVE: &'static str = "battle-royale.move";
pub const ACTION_LOOK: &'static str = "battle-royale.look";
pub const ACTION_MENU: &'static str = "battle-royale.menu";
/// The category every action is listed under.
pub const ACTION_CATEGORY: &'static str = "Battle Royale";
/// The source named in each action's provenance.
pub const ACTION_SOURCE: &'static str = "battle-royale";

/// Input device classes an action may be bound to.
#[derive(Clone, Copy, Debug, PartialEq, Eq, Structural)]
pub enum InputDevice {
    Keyboard,
    Mouse,
    Gamepad,
    Pointer,
}

/// One bindable action: never repeated, in the "Battle Royale" category, without default
/// bindings.
#[derive(Clone, Debug, PartialEq, Eq)]
pub struct ActionSpec {
    pub id: String,
    pub title: String,
    pub description: String,
    pub allowed_devices: Vec<InputDevice>,
}

fn action(id: &str, title: &str, description: &str, allowed_devices: Vec<InputDevice>) -> (a: ActionSpec)
    ensures
        a.id@ == id@,
        a.title@ == title@,
        a.description@ == description@,
        a.allowed_devices@ == allowed_devices@,
{
    ActionSpec {
        id: String::from_str(id),
        title: String::from_str(title),
        description: String::from_str(description),
        allowed_devices,
    }
}

/// Move and look accept keyboard or mouse, gamepad and touch pointer; the menu accepts
/// keyboard, gamepad and pointer.
pub fn battle_royale_actions() -> (actions: Vec<ActionSpec>)
    ensures
        actions@.len() == 3,
        actions@[0].id@ == ACTION_MOVE@,
        actions@[0].title@ == "Move"@,
        actions@[0].description@ == "Move the player. Touch thumbsticks are quantized into the same authoritative movement command as other clients."@,
        actions@[0].allowed_devices@ == seq![
            InputDevice::Keyboard,
            InputDevice::Gamepad,
            InputDevice::Pointer,
        ],
        actions@[1].id@ == ACTION_LOOK@,
        actions@[1].title@ == "Look"@,
        actions@[1].description@ == "Aim or rotate the local camera. Look input is client-local until an authoritative gameplay command requires it."@,
        actions@[1].allowed_devices@ == seq![
            InputDevice::Mouse,
            InputDevice::Gamepad,
            InputDevice::Pointer,
        ],
        actions@[2].id@ == ACTION_MENU@,
        actions@[2].title@ == "Menu"@,
        actions@[2].description@ == "Open or close local Battle Royale controls and settings."@,
        actions@[2].allowed_devices@ == seq![
            InputDevice::Keyboard,
            InputDevice::Gamepad,
            InputDevice::Pointer,
        ],
{
    let mut actions: Vec<ActionSpec> = Vec::new();
    actions.push(
        action(
            ACTION_MOVE,
            "Move",
            "Move the player. Touch thumbsticks are quantized into the same authoritative movement command as other clients.",
            vec![InputDevice::Keyboard, InputDevice::Gamepad, InputDevice::Pointer],
        ),
    );
    actions.push(
        action(
            ACTION_LOOK,
            "Look",
            "Aim or rotate the local camera. Look input is client-local until an authoritative gameplay command requires it.",
            vec![InputDevice::Mouse, InputDevice::Gamepad, InputDevice::Pointer],
        ),
    );
    actions.push(
        action(
            ACTION_MENU,
            "Menu",
            "Open or close local Battle Royale controls and settings.",
            vec![InputDevice::Keyboard, InputDevice::Gamepad, InputDevice::Pointer],
        ),
    );
    actions
}

} // verus!
