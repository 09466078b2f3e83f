//! The objects that sit in a submarine (doors, pumps, engines, ...), how a
//! click changes them, which animation frame shows them, and how they are
//! stored in a submarine template.

use crate::state::Navigation;
use crate::water::tdiv;
use vstd::prelude::*;

verus! {

#[derive(Clone, Copy, PartialEq, Eq, Debug)]
pub enum DoorState {
    Opening,
    Closing,
}

impl Default for DoorState {
    fn default() -> (r: Self)
        ensures
            r == DoorState::Closing,
    {
        DoorState::Closing
    }
}

impl DoorState {
    pub open spec fn toggled(self) -> DoorState {
        match self {
            DoorState::Opening => DoorState::Closing,
            DoorState::Closing => DoorState::Opening,
        }
    }

    /// The other direction; the door itself is not changed.
    pub fn toggle(&self) -> (r: DoorState)
        ensures
            r == self.toggled(),
    {
        match self {
            DoorState::Opening => DoorState::Closing,
            DoorState::Closing => DoorState::Opening,
        }
    }
}

#[derive(Clone, Copy, PartialEq, Eq, Debug)]
pub enum ObjectType {
    Door { state: DoorState, progress: u8 },
    VerticalDoor { state: DoorState, progress: u8 },
    Reactor { active: bool },
    Lamp,
    Gauge { value: i8 },
    SmallPump { target_speed: i8, speed: i8, progress: u8 },
    LargePump { target_speed: i8, speed: i8, progress: u8 },
    JunctionBox { enabled: bool, progress: u8 },
    NavController { active: bool, progress: u8 },
    Sonar { active: bool, navigation_target: Option<(usize, usize)> },
    Engine { target_speed: i8, speed: i8, progress: u8 },
    Battery { charge: u16 },
    BundleInput { sub_bundle: u8 },
    BundleOutput { sub_bundle: u8 },
    DockingConnectorTop { state: DoorState, progress: u8, connected: bool, previous_connected: bool },
    DockingConnectorBottom {
        state: DoorState,
        progress: u8,
        connected: bool,
        previous_connected: bool,
    },
}

#[derive(Clone, Copy, PartialEq, Eq, Debug)]
pub struct Object {
    pub object_type: ObjectType,
    pub position: (u32, u32),
    pub powered: bool,
}

/// How an object is stored in a submarine template: everything but whether
/// it is powered, which the first update finds out again.
#[derive(Clone, Copy, PartialEq, Eq, Debug)]
pub enum ObjectTypeTemplate {
    Door { state: DoorState, progress: u8 },
    VerticalDoor { state: DoorState, progress: u8 },
    Reactor { active: bool },
    Lamp,
    Gauge { value: i8 },
    SmallPump { target_speed: i8, speed: i8, progress: u8 },
    LargePump { target_speed: i8, speed: i8, progress: u8 },
    JunctionBox { enabled: bool, progress: u8 },
    NavController { active: bool, progress: u8 },
    Sonar { active: bool, navigation_target: Option<(usize, usize)> },
    Engine { target_speed: i8, speed: i8, progress: u8 },
    Battery { charge: u16 },
    BundleInput { sub_bundle: u8 },
    BundleOutput { sub_bundle: u8 },
    DockingConnectorTop { state: DoorState, progress: u8, connected: bool, previous_connected: bool },
    DockingConnectorBottom {
        state: DoorState,
        progress: u8,
        connected: bool,
        previous_connected: bool,
    },
}

#[derive(Clone, Copy, PartialEq, Eq, Debug)]
pub struct ObjectTemplate {
    pub object_type: ObjectTypeTemplate,
    pub position: (u32, u32),
}

/// What the navigation controller asks of the engines and pumps.
#[derive(Clone, Copy, PartialEq, Eq, Debug)]
pub struct NavControl {
    pub target_speed: (i32, i32),
    pub target_acceleration: (i32, i32),
    pub engine_and_pump_speed: (i32, i32),
}

impl Object {
    /// Where a powered, active sonar wants the submarine to go: `Some` of its
    /// target (which may be unset) for such a sonar, `None` for anything else.
    pub fn active_sonar_target(&self) -> (r: Option<Option<(usize, usize)>>)
        ensures
            r == (match self.object_type {
                ObjectType::Sonar { active, navigation_target } => if self.powered && active {
                    Some(navigation_target)
                } else {
                    None
                },
                _ => None,
            }),
    {
        if self.powered {
            if let ObjectType::Sonar { active: true, navigation_target } = &self.object_type {
                Some(*navigation_target)
            } else {
                None
            }
        } else {
            None
        }
    }
}

/// The next speed setting when a pump, engine or gauge is clicked:
/// 0, 64, 127, -128, -64 and round again; any other value goes to 0.
pub open spec fn cycled(value: i8) -> i8 {
    if value == 0 {
        64
    } else if value == 64 {
        127
    } else if value == 127 {
        -128i8
    } else if value == -128 {
        -64i8
    } else {
        0
    }
}

pub fn cycle_i8(value: &mut i8)
    ensures
        *final(value) == cycled(*old(value)),
{
    let v = *value;
    *value = if v == 0 {
        64
    } else if v == 64 {
        127
    } else if v == 127 {
        i8::MIN
    } else if v == i8::MIN {
        -64
    } else {
        0
    };
}

/// What a left click does to an object.
pub open spec fn interacted(t: ObjectType) -> ObjectType {
    match t {
        ObjectType::Door { state, progress } => ObjectType::Door { state: state.toggled(), progress },
        ObjectType::VerticalDoor { state, progress } => ObjectType::VerticalDoor {
            state: state.toggled(),
            progress,
        },
        ObjectType::Reactor { active } => ObjectType::Reactor { active: !active },
        ObjectType::Lamp => ObjectType::Lamp,
        ObjectType::Gauge { value } => ObjectType::Gauge { value: cycled(value) },
        ObjectType::SmallPump { target_speed, speed, progress } => ObjectType::SmallPump {
            target_speed: cycled(target_speed),
            speed,
            progress,
        },
        ObjectType::LargePump { target_speed, speed, progress } => ObjectType::LargePump {
            target_speed: cycled(target_speed),
            speed,
            progress,
        },
        ObjectType::JunctionBox { enabled, progress } => ObjectType::JunctionBox {
            enabled: !enabled,
            progress,
        },
        ObjectType::NavController { active, progress } => ObjectType::NavController {
            active: !active,
            progress,
        },
        ObjectType::Sonar { active, navigation_target } => ObjectType::Sonar {
            active: !active,
            navigation_target,
        },
        ObjectType::Engine { target_speed, speed, progress } => ObjectType::Engine {
            target_speed: cycled(target_speed),
            speed,
            progress,
        },
        ObjectType::Battery { charge } => ObjectType::Battery { charge },
        ObjectType::BundleInput { sub_bundle } => ObjectType::BundleInput {
            sub_bundle: ((sub_bundle + 1) % 8) as u8,
        },
        ObjectType::BundleOutput { sub_bundle } => ObjectType::BundleOutput {
            sub_bundle: ((sub_bundle + 1) % 8) as u8,
        },
        ObjectType::DockingConnectorTop { state, progress, connected, previous_connected } =>
            ObjectType::DockingConnectorTop {
            state: state.toggled(),
            progress,
            connected,
            previous_connected,
        },
        ObjectType::DockingConnectorBottom { state, progress, connected, previous_connected } =>
            ObjectType::DockingConnectorBottom {
            state: state.toggled(),
            progress,
            connected,
            previous_connected,
        },
    }
}

/// What an object does when left-clicked: doors and docking connectors turn
/// around, switches flip, speeds and gauges cycle, bundle plugs move to the
/// next of their 8 sub-bundles; lamps and batteries ignore it.
pub fn interact_with_object(object: &mut Object)
    requires
        match old(object).object_type {
            ObjectType::BundleInput { sub_bundle } => sub_bundle < 255,
            ObjectType::BundleOutput { sub_bundle } => sub_bundle < 255,
            _ => true,
        },
    ensures
        final(object).object_type == interacted(old(object).object_type),
        final(object).position == old(object).position,
        final(object).powered == old(object).powered,
{
    match &mut object.object_type {
        ObjectType::Door { state, .. } => {
            *state = match state {
                DoorState::Opening => DoorState::Closing,
                DoorState::Closing => DoorState::Opening,
            }
        },
        ObjectType::VerticalDoor { state, .. } => {
            *state = match state {
                DoorState::Opening => DoorState::Closing,
                DoorState::Closing => DoorState::Opening,
            }
        },
        ObjectType::Reactor { active } => *active = !*active,
        ObjectType::Lamp => (),
        ObjectType::Gauge { value } => cycle_i8(value),
        ObjectType::SmallPump { target_speed, .. } => cycle_i8(target_speed),
        ObjectType::LargePump { target_speed, .. } => cycle_i8(target_speed),
        ObjectType::JunctionBox { enabled, .. } => *enabled = !*enabled,
        ObjectType::NavController { active, .. } => *active = !*active,
        ObjectType::Sonar { active, .. } => *active = !*active,
        ObjectType::Engine { target_speed, .. } => cycle_i8(target_speed),
        ObjectType::Battery { .. } => (),
        ObjectType::BundleInput { sub_bundle } => {
            *sub_bundle = (*sub_bundle + 1) % 8;
        },
        ObjectType::BundleOutput { sub_bundle } => {
            *sub_bundle = (*sub_bundle + 1) % 8;
        },
        ObjectType::DockingConnectorTop { state, .. } => {
            *state = match state {
                DoorState::Opening => DoorState::Closing,
                DoorState::Closing => DoorState::Opening,
            }
        },
        ObjectType::DockingConnectorBottom { state, .. } => {
            *state = match state {
                DoorState::Opening => DoorState::Closing,
                DoorState::Closing => DoorState::Opening,
            }
        },
    }
}

/// The frame of an object's sprite sheet, in its first column.
pub open spec fn frame_of(object: Object) -> int {
    let powered = object.powered;
    match object.object_type {
        ObjectType::Door { progress, state } => {
            let powered_offset = if !powered {
                0int
            } else {
                match state {
                    DoorState::Closing => 8int,
                    DoorState::Opening => 16int,
                }
            };
            clamp(progress * 8 / 15, 0, 7) + powered_offset
        },
        ObjectType::VerticalDoor { progress, .. } => clamp(progress * 9 / 15, 0, 8),
        ObjectType::Reactor { active } => if active {
            0
        } else {
            1
        },
        ObjectType::Lamp => if powered {
            1
        } else {
            0
        },
        ObjectType::Gauge { value } => if value <= -96 {
            0
        } else if value <= -32 {
            1
        } else if value <= 31 {
            2
        } else if value <= 95 {
            3
        } else {
            4
        },
        ObjectType::SmallPump { progress, .. } => clamp(progress as int / 63, 0, 3),
        ObjectType::LargePump { progress, .. } => clamp(progress as int / 63, 0, 3),
        ObjectType::JunctionBox { progress, .. } => {
            let powered_offset = if powered {
                0int
            } else {
                5int
            };
            clamp(progress * 5 / 16, 0, 4) + powered_offset
        },
        ObjectType::NavController { active, progress } => if active && powered {
            (progress as int / 8) % 5 + 1
        } else {
            0
        },
        ObjectType::Sonar { active, .. } => if powered && active {
            0
        } else {
            1
        },
        ObjectType::Engine { progress, .. } => clamp(progress as int / 10, 0, 23),
        ObjectType::Battery { charge } => if charge == 0 {
            7
        } else {
            7 - clamp(charge * 8 / 5400, 1, 7)
        },
        ObjectType::BundleInput { sub_bundle } => sub_bundle as int,
        ObjectType::BundleOutput { sub_bundle } => sub_bundle as int,
        ObjectType::DockingConnectorTop { progress, .. } => clamp(progress * 9 / 15, 0, 8) + if powered {
            8int
        } else {
            0int
        },
        ObjectType::DockingConnectorBottom { progress, .. } => clamp(progress * 9 / 15, 0, 8) + if powered {
            8int
        } else {
            0int
        },
    }
}

pub open spec fn clamp(v: int, lo: int, hi: int) -> int {
    if v < lo {
        lo
    } else if v > hi {
        hi
    } else {
        v
    }
}

/// The frame counters of a junction box and a battery are kept small
/// enough for their frame arithmetic.
pub open spec fn frame_computable(object: Object) -> bool {
    match object.object_type {
        ObjectType::JunctionBox { progress, .. } => progress * 5 <= u8::MAX,
        ObjectType::Battery { charge } => charge * 8 <= u16::MAX,
        _ => true,
    }
}

fn clamp_u16(v: u16, lo: u16, hi: u16) -> (r: u16)
    requires
        lo <= hi,
    ensures
        r == clamp(v as int, lo as int, hi as int),
{
    if v < lo {
        lo
    } else if v > hi {
        hi
    } else {
        v
    }
}

/// Which frame of its sprite sheet shows the object, as (frame, column).
pub fn current_frame(object: &Object) -> (r: (u16, u16))
    requires
        frame_computable(*object),
    ensures
        r.0 == frame_of(*object),
        r.1 == 0,
{
    let current_frame_column: u16 = 0;
    let powered = object.powered;

    let current_frame: u16 = match &object.object_type {
        ObjectType::Door { progress, state } => {
            let powered_offset: u16 = if !powered {
                0
            } else {
                match state {
                    DoorState::Closing => 8,
                    DoorState::Opening => 16,
                }
            };
            clamp_u16(*progress as u16 * 8 / 15, 0, 7) + powered_offset
        },
        ObjectType::VerticalDoor { progress, .. } => clamp_u16(*progress as u16 * 9 / 15, 0, 8),
        ObjectType::Reactor { active } => {
            if *active {
                0
            } else {
                1
            }
        },
        ObjectType::Lamp => {
            if powered {
                1
            } else {
                0
            }
        },
        ObjectType::Gauge { value } => {
            let v: i8 = *value;
            if v <= -96 {
                0
            } else if v <= -32 {
                1
            } else if v <= 31 {
                2
            } else if v <= 95 {
                3
            } else {
                4
            }
        },
        ObjectType::SmallPump { progress, .. } => clamp_u16((*progress / (u8::MAX / 4)) as u16, 0, 3),
        ObjectType::LargePump { progress, .. } => clamp_u16((*progress / (u8::MAX / 4)) as u16, 0, 3),
        ObjectType::JunctionBox { progress, .. } => {
            let powered_offset: u16 = if powered {
                0
            } else {
                5
            };
            let scaled: u8 = *progress * 5 / 16;
            let frame: u16 = if scaled < 4 {
                scaled as u16
            } else {
                4
            };
            frame + powered_offset
        },
        ObjectType::NavController { active, progress } => {
            if *active && powered {
                (*progress as u16 / 8) % 5 + 1
            } else {
                0
            }
        },
        ObjectType::Sonar { active, .. } => {
            if powered && *active {
                0
            } else {
                1
            }
        },
        ObjectType::Engine { progress, .. } => {
            let frames: u8 = 24;
            clamp_u16((*progress / (u8::MAX / frames)) as u16, 0, (frames - 1) as u16)
        },
        ObjectType::Battery { charge } => {
            // Treat anything that isn't exactly 0 as having at least one blip
            // of power.
            if *charge == 0 {
                7
            } else {
                7 - clamp_u16(*charge * 8 / 5400, 1, 7)
            }
        },
        ObjectType::BundleInput { sub_bundle } => *sub_bundle as u16,
        ObjectType::BundleOutput { sub_bundle } => *sub_bundle as u16,
        ObjectType::DockingConnectorTop { progress, .. } => {
            clamp_u16(*progress as u16 * 9 / 15, 0, 8) + if powered {
                8
            } else {
                0
            }
        },
        ObjectType::DockingConnectorBottom { progress, .. } => {
            clamp_u16(*progress as u16 * 9 / 15, 0, 8) + if powered {
                8
            } else {
                0
            }
        },
    };

    (current_frame, current_frame_column)
}

/// The navigation controller's plan for a navigation state.
pub open spec fn navigation_control(navigation: Navigation) -> NavControl {
    let target_speed_x = clamp(tdiv(navigation.target.0 - navigation.position.0, 4), -2048, 2048);
    let target_acceleration_x = clamp(tdiv(target_speed_x - navigation.speed.0, 256), -4, 4);
    let engine_speed = 32 * target_acceleration_x;
    let target_speed_y = clamp(tdiv(navigation.target.1 - navigation.position.1, 4), -2048, 2048);
    let target_acceleration_y = clamp(tdiv(target_speed_y - navigation.speed.1, 256), -3, 3);
    let pump_speed = 32 * clamp(target_acceleration_y - navigation.acceleration.1, -4, 4);
    NavControl {
        target_speed: (target_speed_x as i32, target_speed_y as i32),
        target_acceleration: (target_acceleration_x as i32, target_acceleration_y as i32),
        engine_and_pump_speed: (engine_speed as i32, pump_speed as i32),
    }
}

/// The navigation state is far enough from the ends of the `i32` range for
/// the controller's differences.
pub open spec fn navigation_computable(navigation: Navigation) -> bool {
    let target_speed_x = clamp(tdiv(navigation.target.0 - navigation.position.0, 4), -2048, 2048);
    let target_speed_y = clamp(tdiv(navigation.target.1 - navigation.position.1, 4), -2048, 2048);
    let target_acceleration_y = clamp(tdiv(target_speed_y - navigation.speed.1, 256), -3, 3);
    &&& i32::MIN <= navigation.target.0 - navigation.position.0 <= i32::MAX
    &&& i32::MIN <= navigation.target.1 - navigation.position.1 <= i32::MAX
    &&& i32::MIN <= target_speed_x - navigation.speed.0 <= i32::MAX
    &&& i32::MIN <= target_speed_y - navigation.speed.1 <= i32::MAX
    &&& i32::MIN <= target_acceleration_y - navigation.acceleration.1 <= i32::MAX
}

fn clamp_i32(v: i32, lo: i32, hi: i32) -> (r: i32)
    requires
        lo <= hi,
    ensures
        r == clamp(v as int, lo as int, hi as int),
{
    if v < lo {
        lo
    } else if v > hi {
        hi
    } else {
        v
    }
}

/// X axis: the engine speed that moves the submarine towards its target;
/// Y axis: the ballast pump speed.
pub fn compute_navigation(navigation: &Navigation) -> (r: NavControl)
    requires
        navigation_computable(*navigation),
    ensures
        r == navigation_control(*navigation),
{
    // X axis - control engine
    let target_speed_x: i32 = clamp_i32((navigation.target.0 - navigation.position.0) / 4, -2048, 2048);

    let target_acceleration_x: i32 = clamp_i32((target_speed_x - navigation.speed.0) / 256, -4, 4);
    let engine_speed: i32 = 32 * target_acceleration_x;

    // Y axis - control pumps in ballast tanks
    let target_speed_y: i32 = clamp_i32((navigation.target.1 - navigation.position.1) / 4, -2048, 2048);
    let target_acceleration_y: i32 = clamp_i32((target_speed_y - navigation.speed.1) / 256, -3, 3);
    let pump_speed: i32 = 32 * clamp_i32(target_acceleration_y - navigation.acceleration.1, -4, 4);

    NavControl {
        target_speed: (target_speed_x, target_speed_y),
        target_acceleration: (target_acceleration_x, target_acceleration_y),
        engine_and_pump_speed: (engine_speed, pump_speed),
    }
}

/// The template kind that stores an object kind.
pub open spec fn template_of(t: ObjectType) -> ObjectTypeTemplate {
    match t {
        ObjectType::Door { state, progress } => ObjectTypeTemplate::Door { state, progress },
        ObjectType::VerticalDoor { state, progress } => ObjectTypeTemplate::VerticalDoor { state, progress },
        ObjectType::Reactor { active } => ObjectTypeTemplate::Reactor { active },
        ObjectType::Lamp => ObjectTypeTemplate::Lamp,
        ObjectType::Gauge { value } => ObjectTypeTemplate::Gauge { value },
        ObjectType::SmallPump { target_speed, speed, progress } => ObjectTypeTemplate::SmallPump { target_speed, speed, progress },
        ObjectType::LargePump { target_speed, speed, progress } => ObjectTypeTemplate::LargePump { target_speed, speed, progress },
        ObjectType::JunctionBox { enabled, progress } => ObjectTypeTemplate::JunctionBox { enabled, progress },
        ObjectType::NavController { active, progress } => ObjectTypeTemplate::NavController { active, progress },
        ObjectType::Sonar { active, navigation_target } => ObjectTypeTemplate::Sonar { active, navigation_target },
        ObjectType::Engine { target_speed, speed, progress } => ObjectTypeTemplate::Engine { target_speed, speed, progress },
        ObjectType::Battery { charge } => ObjectTypeTemplate::Battery { charge },
        ObjectType::BundleInput { sub_bundle } => ObjectTypeTemplate::BundleInput { sub_bundle },
        ObjectType::BundleOutput { sub_bundle } => ObjectTypeTemplate::BundleOutput { sub_bundle },
        ObjectType::DockingConnectorTop { state, progress, connected, previous_connected } => ObjectTypeTemplate::DockingConnectorTop { state, progress, connected, previous_connected },
        ObjectType::DockingConnectorBottom { state, progress, connected, previous_connected } => ObjectTypeTemplate::DockingConnectorBottom { state, progress, connected, previous_connected },
    }
}

/// The object kind that a template kind describes.
pub open spec fn object_type_of(t: ObjectTypeTemplate) -> ObjectType {
    match t {
        ObjectTypeTemplate::Door { state, progress } => ObjectType::Door { state, progress },
        ObjectTypeTemplate::VerticalDoor { state, progress } => ObjectType::VerticalDoor { state, progress },
        ObjectTypeTemplate::Reactor { active } => ObjectType::Reactor { active },
        ObjectTypeTemplate::Lamp => ObjectType::Lamp,
        ObjectTypeTemplate::Gauge { value } => ObjectType::Gauge { value },
        ObjectTypeTemplate::SmallPump { target_speed, speed, progress } => ObjectType::SmallPump { target_speed, speed, progress },
        ObjectTypeTemplate::LargePump { target_speed, speed, progress } => ObjectType::LargePump { target_speed, speed, progress },
        ObjectTypeTemplate::JunctionBox { enabled, progress } => ObjectType::JunctionBox { enabled, progress },
        ObjectTypeTemplate::NavController { active, progress } => ObjectType::NavController { active, progress },
        ObjectTypeTemplate::Sonar { active, navigation_target } => ObjectType::Sonar { active, navigation_target },
        ObjectTypeTemplate::Engine { target_speed, speed, progress } => ObjectType::Engine { target_speed, speed, progress },
        ObjectTypeTemplate::Battery { charge } => ObjectType::Battery { charge },
        ObjectTypeTemplate::BundleInput { sub_bundle } => ObjectType::BundleInput { sub_bundle },
        ObjectTypeTemplate::BundleOutput { sub_bundle } => ObjectType::BundleOutput { sub_bundle },
        ObjectTypeTemplate::DockingConnectorTop { state, progress, connected, previous_connected } => ObjectType::DockingConnectorTop { state, progress, connected, previous_connected },
        ObjectTypeTemplate::DockingConnectorBottom { state, progress, connected, previous_connected } => ObjectType::DockingConnectorBottom { state, progress, connected, previous_connected },
    }
}

impl ObjectTemplate {
    /// The template that stores an object: its kind and position.
    pub fn from_object(object: &Object) -> (r: Self)
        ensures
            r.object_type == template_of(object.object_type),
            r.position == object.position,
    {
        let object_type = match object.object_type {
            ObjectType::Door { state, progress } => ObjectTypeTemplate::Door { state, progress },
            ObjectType::VerticalDoor { state, progress } => ObjectTypeTemplate::VerticalDoor { state, progress },
            ObjectType::Reactor { active } => ObjectTypeTemplate::Reactor { active },
            ObjectType::Lamp => ObjectTypeTemplate::Lamp,
            ObjectType::Gauge { value } => ObjectTypeTemplate::Gauge { value },
            ObjectType::SmallPump { target_speed, speed, progress } => ObjectTypeTemplate::SmallPump { target_speed, speed, progress },
            ObjectType::LargePump { target_speed, speed, progress } => ObjectTypeTemplate::LargePump { target_speed, speed, progress },
            ObjectType::JunctionBox { enabled, progress } => ObjectTypeTemplate::JunctionBox { enabled, progress },
            ObjectType::NavController { active, progress } => ObjectTypeTemplate::NavController { active, progress },
            ObjectType::Sonar { active, navigation_target } => ObjectTypeTemplate::Sonar { active, navigation_target },
            ObjectType::Engine { target_speed, speed, progress } => ObjectTypeTemplate::Engine { target_speed, speed, progress },
            ObjectType::Battery { charge } => ObjectTypeTemplate::Battery { charge },
            ObjectType::BundleInput { sub_bundle } => ObjectTypeTemplate::BundleInput { sub_bundle },
            ObjectType::BundleOutput { sub_bundle } => ObjectTypeTemplate::BundleOutput { sub_bundle },
            ObjectType::DockingConnectorTop { state, progress, connected, previous_connected } => ObjectTypeTemplate::DockingConnectorTop { state, progress, connected, previous_connected },
            ObjectType::DockingConnectorBottom { state, progress, connected, previous_connected } => ObjectTypeTemplate::DockingConnectorBottom { state, progress, connected, previous_connected },
        };

        ObjectTemplate { object_type, position: object.position }
    }

    /// The object a template describes; it starts unpowered.
    pub fn to_object(&self) -> (r: Object)
        ensures
            r.object_type == object_type_of(self.object_type),
            r.position == self.position,
            !r.powered,
    {
        let object_type = match self.object_type {
            ObjectTypeTemplate::Door { state, progress } => ObjectType::Door { state, progress },
            ObjectTypeTemplate::VerticalDoor { state, progress } => ObjectType::VerticalDoor { state, progress },
            ObjectTypeTemplate::Reactor { active } => ObjectType::Reactor { active },
            ObjectTypeTemplate::Lamp => ObjectType::Lamp,
            ObjectTypeTemplate::Gauge { value } => ObjectType::Gauge { value },
            ObjectTypeTemplate::SmallPump { target_speed, speed, progress } => ObjectType::SmallPump { target_speed, speed, progress },
            ObjectTypeTemplate::LargePump { target_speed, speed, progress } => ObjectType::LargePump { target_speed, speed, progress },
            ObjectTypeTemplate::JunctionBox { enabled, progress } => ObjectType::JunctionBox { enabled, progress },
            ObjectTypeTemplate::NavController { active, progress } => ObjectType::NavController { active, progress },
            ObjectTypeTemplate::Sonar { active, navigation_target } => ObjectType::Sonar { active, navigation_target },
            ObjectTypeTemplate::Engine { target_speed, speed, progress } => ObjectType::Engine { target_speed, speed, progress },
            ObjectTypeTemplate::Battery { charge } => ObjectType::Battery { charge },
            ObjectTypeTemplate::BundleInput { sub_bundle } => ObjectType::BundleInput { sub_bundle },
            ObjectTypeTemplate::BundleOutput { sub_bundle } => ObjectType::BundleOutput { sub_bundle },
            ObjectTypeTemplate::DockingConnectorTop { state, progress, connected, previous_connected } => ObjectType::DockingConnectorTop { state, progress, connected, previous_connected },
            ObjectTypeTemplate::DockingConnectorBottom { state, progress, connected, previous_connected } => ObjectType::DockingConnectorBottom { state, progress, connected, previous_connected },
        };

        Object { object_type, position: self.position, powered: false }
    }
}

/// Storing an object in a template and reading it back gives the same
/// object, unpowered.
pub proof fn law_template_round_trip(object: Object)
    ensures
        ({
            let template = ObjectTemplate { object_type: template_of(object.object_type), position: object.position };
            let back = Object {
                object_type: object_type_of(template.object_type),
                position: template.position,
                powered: false,
            };
            back == Object { powered: false, ..object }
        }),
{
}

/// Reading a template and storing the object again gives the same template.
pub proof fn law_template_stable(template: ObjectTemplate)
    ensures
        template_of(object_type_of(template.object_type)) == template.object_type,
{
}

} // verus!
