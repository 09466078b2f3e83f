//! Logic and power wire grid.
//!
//! Every cell of the grid can hold one wire of each colour. Thin wires
//! (purple, brown, blue, green) carry a logic or a power signal that fades by
//! a fixed amount on every step; wire bundles connect groups of cells to a
//! shared bundle buffer.

use std::collections::BTreeMap;
use vstd::prelude::*;

use crate::grid::{cell_index, lemma_cell_index_bounds, lemma_cell_index_injective, neighbour_pos};

verus! {

/// Number of wire colours (bundles included).
pub const WIRE_COLORS: usize = 5;

/// Strength with which a freshly sent signal starts.
pub const FRESH_SIGNAL: u16 = 256;

#[derive(Clone, Copy, PartialEq, Eq, Structural, Debug)]
pub enum WireColor {
    Bundle,
    Purple,
    Brown,
    Blue,
    Green,
}

#[derive(Clone, Copy, PartialEq, Eq, Structural, Debug)]
#[allow(inconsistent_fields)]
pub enum WireValue {
    NotConnected,
    NoSignal { terminal: bool },
    Power { value: u8, terminal: bool, signal: u16 },
    Logic { value: i8, terminal: bool, signal: u16 },
    Bundle { bundle_id: u8 },
}

/// A signal parked in a bundle buffer.
#[derive(Clone, Copy, PartialEq, Eq, Structural, Debug)]
pub struct StoredSignal {
    pub logic: Option<i8>,
    pub power: Option<u8>,
}

/// The buffer of one wire bundle: eight sub-bundles of one signal per colour.
#[derive(Clone, Copy, Debug)]
pub struct WireBundle {
    pub bundled_cells: [[StoredSignal; 5]; 8],
}

#[derive(Clone, Copy, Debug)]
pub struct WireCell {
    value: [WireValue; 5],
}

impl WireColor {
    /// Position of the colour in a cell's value array.
    pub open spec fn idx(self) -> int {
        match self {
            WireColor::Bundle => 0,
            WireColor::Purple => 1,
            WireColor::Brown => 2,
            WireColor::Blue => 3,
            WireColor::Green => 4,
        }
    }

    /// The colour stored at position `i` of a cell's value array.
    pub open spec fn from_idx(i: int) -> WireColor {
        if i == 0 {
            WireColor::Bundle
        } else if i == 1 {
            WireColor::Purple
        } else if i == 2 {
            WireColor::Brown
        } else if i == 3 {
            WireColor::Blue
        } else {
            WireColor::Green
        }
    }

    pub fn index(&self) -> (i: usize)
        ensures
            i == self.idx(),
            i < WIRE_COLORS,
    {
        match self {
            WireColor::Bundle => 0,
            WireColor::Purple => 1,
            WireColor::Brown => 2,
            WireColor::Blue => 3,
            WireColor::Green => 4,
        }
    }

    pub fn from_index(i: usize) -> (c: WireColor)
        requires
            i < WIRE_COLORS,
        ensures
            c == WireColor::from_idx(i as int),
            c.idx() == i,
    {
        if i == 0 {
            WireColor::Bundle
        } else if i == 1 {
            WireColor::Purple
        } else if i == 2 {
            WireColor::Brown
        } else if i == 3 {
            WireColor::Blue
        } else {
            WireColor::Green
        }
    }
}

impl StoredSignal {
    pub fn empty() -> (s: StoredSignal)
        ensures
            s.logic.is_none(),
            s.power.is_none(),
    {
        StoredSignal { logic: None, power: None }
    }
}

impl WireBundle {
    /// A bundle buffer in which no signal is stored.
    pub open spec fn is_empty_buffer(self) -> bool {
        forall|i: int, j: int|
            0 <= i < 8 && 0 <= j < 5 ==> #[trigger] self.bundled_cells@[i]@[j] == StoredSignal {
                logic: None,
                power: None,
            }
    }

    pub open spec fn empty_spec() -> WireBundle {
        let s = StoredSignal { logic: None, power: None };
        let row = [s, s, s, s, s];
        WireBundle { bundled_cells: [row, row, row, row, row, row, row, row] }
    }

    pub fn empty() -> (b: WireBundle)
        ensures
            b.is_empty_buffer(),
            b == WireBundle::empty_spec(),
    {
        let s = StoredSignal { logic: None, power: None };
        let row = [s, s, s, s, s];
        WireBundle { bundled_cells: [row, row, row, row, row, row, row, row] }
    }
}

impl Default for WireBundle {
    fn default() -> (b: WireBundle)
        ensures
            b.is_empty_buffer(),
    {
        WireBundle::empty()
    }
}

/// The value with the signal faded by `amount`; a logic or power value whose
/// signal fades to zero turns into `NoSignal`.
pub open spec fn decayed(v: WireValue, amount: u16) -> WireValue {
    match v {
        WireValue::Power { value, terminal, signal } => if signal <= amount {
            WireValue::NoSignal { terminal }
        } else {
            WireValue::Power { value, terminal, signal: (signal - amount) as u16 }
        },
        WireValue::Logic { value, terminal, signal } => if signal <= amount {
            WireValue::NoSignal { terminal }
        } else {
            WireValue::Logic { value, terminal, signal: (signal - amount) as u16 }
        },
        _ => v,
    }
}

/// The value with its terminal flag replaced (values without one are kept).
pub open spec fn with_terminal(v: WireValue, is_terminal: bool) -> WireValue {
    match v {
        WireValue::NoSignal { .. } => WireValue::NoSignal { terminal: is_terminal },
        WireValue::Power { value, signal, .. } => WireValue::Power {
            value,
            terminal: is_terminal,
            signal,
        },
        WireValue::Logic { value, signal, .. } => WireValue::Logic {
            value,
            terminal: is_terminal,
            signal,
        },
        _ => v,
    }
}

impl WireValue {
    #[verifier::allow_in_spec]
    pub fn signal(&self) -> u16
        returns
            match self {
                WireValue::Power { signal, .. } => *signal,
                WireValue::Logic { signal, .. } => *signal,
                _ => 0u16,
            },
    {
        match self {
            WireValue::NotConnected => 0,
            WireValue::NoSignal { .. } => 0,
            WireValue::Power { signal, .. } => *signal,
            WireValue::Logic { signal, .. } => *signal,
            WireValue::Bundle { .. } => 0,
        }
    }

    #[verifier::allow_in_spec]
    pub fn is_terminal(&self) -> bool
        returns
            match self {
                WireValue::NoSignal { terminal } => *terminal,
                WireValue::Power { terminal, .. } => *terminal,
                WireValue::Logic { terminal, .. } => *terminal,
                _ => false,
            },
    {
        match self {
            WireValue::NotConnected => false,
            WireValue::NoSignal { terminal } => *terminal,
            WireValue::Power { terminal, .. } => *terminal,
            WireValue::Logic { terminal, .. } => *terminal,
            WireValue::Bundle { .. } => false,
        }
    }

    #[verifier::allow_in_spec]
    pub fn connected(&self) -> bool
        returns
            !(*self is NotConnected),
    {
        !matches!(self, WireValue::NotConnected)
    }

    pub fn set_terminal(&mut self, is_terminal: bool)
        ensures
            *final(self) == with_terminal(*old(self), is_terminal),
    {
        match self {
            WireValue::NotConnected => (),
            WireValue::NoSignal { terminal } => *terminal = is_terminal,
            WireValue::Power { terminal, .. } => *terminal = is_terminal,
            WireValue::Logic { terminal, .. } => *terminal = is_terminal,
            WireValue::Bundle { .. } => (),
        }
    }

    /// Drives a logic value into a connected wire end; other values are kept.
    pub fn set_logic(&mut self, value: i8)
        ensures
            *final(self) == if old(self).connected() && old(self).is_terminal() {
                WireValue::Logic { value, terminal: true, signal: FRESH_SIGNAL }
            } else {
                *old(self)
            },
    {
        if !self.connected() || !self.is_terminal() {
            return;
        }
        *self = WireValue::Logic { value, terminal: true, signal: 256 }
    }

    /// Drives a power value into a connected wire end; other values are kept.
    pub fn set_power(&mut self, value: u8)
        ensures
            *final(self) == if old(self).connected() && old(self).is_terminal() {
                WireValue::Power { value, terminal: true, signal: FRESH_SIGNAL }
            } else {
                *old(self)
            },
    {
        if !self.connected() || !self.is_terminal() {
            return;
        }
        *self = WireValue::Power { value, terminal: true, signal: 256 }
    }

    #[verifier::allow_in_spec]
    pub fn get_logic(&self) -> Option<i8>
        returns
            match self {
                WireValue::Logic { value, terminal, .. } => if *terminal {
                    Some(*value)
                } else {
                    None
                },
                _ => None,
            },
    {
        match self {
            WireValue::Logic { value, terminal: true, .. } => Some(*value),
            _ => None,
        }
    }

    #[verifier::allow_in_spec]
    pub fn get_power(&self) -> Option<u8>
        returns
            match self {
                WireValue::Power { value, terminal, .. } => if *terminal {
                    Some(*value)
                } else {
                    None
                },
                _ => None,
            },
    {
        match self {
            WireValue::Power { value, terminal: true, .. } => Some(*value),
            _ => None,
        }
    }

    pub fn decay(&self, amount: u16) -> (r: WireValue)
        ensures
            r == decayed(*self, amount),
            r.connected() == self.connected(),
            r.is_terminal() == self.is_terminal(),
            r.signal() == if self.signal() <= amount {
                0
            } else {
                self.signal() - amount
            },
    {
        let new_signal = match self {
            WireValue::NotConnected => WireValue::NotConnected,
            WireValue::NoSignal { terminal } => WireValue::NoSignal { terminal: *terminal },
            WireValue::Power { value, signal, terminal } => WireValue::Power {
                value: *value,
                signal: signal.saturating_sub(amount),
                terminal: *terminal,
            },
            WireValue::Logic { value, signal, terminal } => WireValue::Logic {
                value: *value,
                signal: signal.saturating_sub(amount),
                terminal: *terminal,
            },
            WireValue::Bundle { bundle_id } => WireValue::Bundle { bundle_id: *bundle_id },
        };

        match new_signal {
            WireValue::Power { signal: 0, terminal, .. } => WireValue::NoSignal { terminal },
            WireValue::Logic { signal: 0, terminal, .. } => WireValue::NoSignal { terminal },
            value => value,
        }
    }
}


/// The value after a logic signal is driven into it (see `WireValue::set_logic`).
pub open spec fn logic_sent(v: WireValue, value: i8) -> WireValue {
    if v.connected() && v.is_terminal() {
        WireValue::Logic { value, terminal: true, signal: FRESH_SIGNAL }
    } else {
        v
    }
}

/// The value after power is driven into it (see `WireValue::set_power`).
pub open spec fn power_sent(v: WireValue, value: u8) -> WireValue {
    if v.connected() && v.is_terminal() {
        WireValue::Power { value, terminal: true, signal: FRESH_SIGNAL }
    } else {
        v
    }
}

/// The logic value of the first colour, from `from` on, that ends in a
/// terminal carrying logic.
pub open spec fn first_logic(vals: Seq<WireValue>, from: int) -> Option<i8>
    decreases 5 - from,
{
    if from < 0 || from >= 5 {
        None
    } else if vals[from].get_logic() is Some {
        vals[from].get_logic()
    } else {
        first_logic(vals, from + 1)
    }
}

/// The power value of the first colour, from `from` on, that ends in a
/// terminal carrying power.
pub open spec fn first_power(vals: Seq<WireValue>, from: int) -> Option<u8>
    decreases 5 - from,
{
    if from < 0 || from >= 5 {
        None
    } else if vals[from].get_power() is Some {
        vals[from].get_power()
    } else {
        first_power(vals, from + 1)
    }
}

/// The first colour, from `from` on, whose wire ends in the cell.
pub open spec fn first_terminal(vals: Seq<WireValue>, from: int) -> Option<int>
    decreases 5 - from,
{
    if from < 0 || from >= 5 {
        None
    } else if vals[from].connected() && vals[from].is_terminal() {
        Some(from)
    } else {
        first_terminal(vals, from + 1)
    }
}

/// A cell's values after power is driven into its first wire end.
pub open spec fn cell_power_sent(vals: Seq<WireValue>, power: u8) -> Seq<WireValue> {
    match first_terminal(vals, 0) {
        Some(k) => vals.update(
            k,
            WireValue::Power { value: power, terminal: true, signal: FRESH_SIGNAL },
        ),
        None => vals,
    }
}

impl View for WireCell {
    type V = Seq<WireValue>;

    /// The value of each colour, indexed by `WireColor::idx`.
    closed spec fn view(&self) -> Seq<WireValue> {
        self.value@
    }
}

pub broadcast proof fn lemma_cell_view_len(c: WireCell)
    ensures
        #[trigger] c@.len() == WIRE_COLORS,
{
}

impl WireCell {
    /// The cell with the value of colour index `c` replaced.
    pub closed spec fn with_value(self, c: int, v: WireValue) -> WireCell {
        WireCell { value: vstd::array::spec_array_update(self.value, c, v) }
    }

    pub broadcast proof fn lemma_with_value(self, c: int, v: WireValue)
        requires
            0 <= c < 5,
        ensures
            #[trigger] self.with_value(c, v)@ == self@.update(c, v),
    {
    }

    /// Cells with the same values are the same cell.
    pub proof fn lemma_view_ext(a: WireCell, b: WireCell)
        requires
            a@ == b@,
        ensures
            a == b,
    {
        assert(a.value =~= b.value);
    }

    /// A cell without any wire.
    pub fn empty() -> (c: WireCell)
        ensures
            forall|i: int| 0 <= i < WIRE_COLORS ==> #[trigger] c@[i] == WireValue::NotConnected,
    {
        let v = WireValue::NotConnected;
        WireCell { value: [v, v, v, v, v] }
    }

    pub fn value(&self, color: WireColor) -> (r: &WireValue)
        ensures
            *r == self@[color.idx()],
    {
        &self.value[color.index()]
    }

    pub fn value_mut(&mut self, color: WireColor) -> (r: &mut WireValue)
        ensures
            *r == old(self)@[color.idx()],
            final(self)@ == old(self)@.update(color.idx(), *final(r)),
    {
        &mut self.value[color.index()]
    }

    /// The logic value arriving at the first wire end that carries one.
    pub fn receive_logic(&self) -> (r: Option<i8>)
        ensures
            r == first_logic(self@, 0),
    {
        let mut wire_color: usize = 0;
        while wire_color < WIRE_COLORS
            invariant
                wire_color <= WIRE_COLORS,
                first_logic(self@, 0) == first_logic(self@, wire_color as int),
            decreases WIRE_COLORS - wire_color,
        {
            let value = self.value[wire_color];
            if value.is_terminal() {
                match value {
                    WireValue::Logic { value, .. } => return Some(value),
                    _ => (),
                }
            }
            wire_color = wire_color + 1;
        }
        None
    }

    /// The power value arriving at the first wire end that carries power.
    pub fn receive_power(&self) -> (r: Option<u8>)
        ensures
            r == first_power(self@, 0),
    {
        let mut wire_color: usize = 0;
        while wire_color < WIRE_COLORS
            invariant
                wire_color <= WIRE_COLORS,
                first_power(self@, 0) == first_power(self@, wire_color as int),
            decreases WIRE_COLORS - wire_color,
        {
            let value = self.value[wire_color];
            if value.is_terminal() {
                match value {
                    WireValue::Power { value, .. } => return Some(value),
                    _ => (),
                }
            }
            wire_color = wire_color + 1;
        }
        None
    }

    /// Whether at least `minimum` power arrives at the cell.
    pub fn minimum_power(&self, minimum: u8) -> (r: bool)
        ensures
            r == match first_power(self@, 0) {
                Some(value) => value >= minimum,
                None => false,
            },
    {
        match self.receive_power() {
            Some(value) => value >= minimum,
            None => false,
        }
    }

    /// Drives a logic value into every wire that ends in the cell.
    pub fn send_logic(&mut self, logic_value: i8)
        ensures
            final(self)@ == Seq::new(5, |i: int| logic_sent(old(self)@[i], logic_value)),
    {
        let ghost start = self@;
        let mut wire_color: usize = 0;
        while wire_color < WIRE_COLORS
            invariant
                wire_color <= WIRE_COLORS,
                self@.len() == 5,
                start.len() == 5,
                forall|i: int| 0 <= i < wire_color ==> self@[i] == logic_sent(start[i], logic_value),
                forall|i: int| wire_color <= i < 5 ==> self@[i] == start[i],
            decreases WIRE_COLORS - wire_color,
        {
            let wire_value = self.value[wire_color];
            if wire_value.connected() && wire_value.is_terminal() {
                self.value[wire_color] = WireValue::Logic {
                    value: logic_value,
                    signal: 256,
                    terminal: true,
                };
            }
            wire_color = wire_color + 1;
        }
        assert(self@ =~= Seq::new(5, |i: int| logic_sent(start[i], logic_value)));
    }

    /// Drives power into the first wire (and only that one) that ends in the
    /// cell.
    pub fn send_power(&mut self, power_value: u8)
        ensures
            final(self)@ == cell_power_sent(old(self)@, power_value),
    {
        let mut wire_color: usize = 0;
        while wire_color < WIRE_COLORS
            invariant
                wire_color <= WIRE_COLORS,
                self@ == old(self)@,
                first_terminal(self@, 0) == first_terminal(self@, wire_color as int),
            decreases WIRE_COLORS - wire_color,
        {
            let wire_value = self.value[wire_color];
            if wire_value.connected() && wire_value.is_terminal() {
                self.value[wire_color] = WireValue::Power {
                    value: power_value,
                    signal: 256,
                    terminal: true,
                };
                return;
            }
            wire_color = wire_color + 1;
        }
    }

    /// The bundle that the cell's bundle wire belongs to, if it has one.
    pub fn bundle_id(&self) -> (r: Option<u8>)
        ensures
            r == match self@[0] {
                WireValue::Bundle { bundle_id } => Some(bundle_id),
                _ => None,
            },
    {
        if let WireValue::Bundle { bundle_id } = self.value(WireColor::Bundle) {
            Some(*bundle_id)
        } else {
            None
        }
    }
}


/// The cells whose wires take part in signal updates: those that are not on
/// the grid's border (nor in the second-to-last column).
pub open spec fn in_wire_area(width: int, height: int, p: (usize, usize)) -> bool {
    1 <= p.0 < width - 2 && 1 <= p.1 < height - 1
}

pub struct WireGrid {
    cells: Vec<WireCell>,
    width: usize,
    height: usize,
    connected_wires: [Vec<(usize, usize)>; 5],
    bundle_inputs: Vec<WireBundle>,
    bundle_outputs: Vec<WireBundle>,
}

/// The distinct bundle ids among the first `n` entries of `ids`, in order of
/// first appearance.
pub open spec fn distinct_ids(ids: Seq<Option<u8>>, n: int) -> Seq<u8>
    decreases n,
{
    if n <= 0 {
        Seq::empty()
    } else {
        let acc = distinct_ids(ids, n - 1);
        match ids[n - 1] {
            Some(id) => if acc.contains(id) {
                acc
            } else {
                acc.push(id)
            },
            None => acc,
        }
    }
}

/// A bundle value of one of the bundles `ids` moved to bundle `new_id`.
pub open spec fn renamed(v: WireValue, ids: Seq<u8>, new_id: u8) -> WireValue {
    match v {
        WireValue::Bundle { bundle_id } => if ids.contains(bundle_id) {
            WireValue::Bundle { bundle_id: new_id }
        } else {
            v
        },
        _ => v,
    }
}

pub proof fn lemma_renamed_idempotent(v: WireValue, ids: Seq<u8>, new_id: u8)
    ensures
        renamed(renamed(v, ids, new_id), ids, new_id) == renamed(v, ids, new_id),
{
}

pub fn contains_u8(v: &Vec<u8>, x: u8) -> (r: bool)
    ensures
        r == v@.contains(x),
{
    let mut i: usize = 0;
    while i < v.len()
        invariant
            i <= v@.len(),
            forall|j: int| 0 <= j < i ==> v@[j] != x,
        decreases v@.len() - i,
    {
        if v[i] == x {
            assert(v@[i as int] == x);
            return true;
        }
        i = i + 1;
    }
    false
}

/// Upper bound of the signals that an update can compare without overflow.
pub const MAX_UPDATE_SIGNAL: u16 = 65533;

/// One neighbour's effect on a wire being updated: a connected neighbour is
/// counted, and its signal (faded by 1) is taken over when it is more than
/// 3 stronger than the wire's current one.
pub open spec fn neighbour_step(acc: (WireValue, int), nb: WireValue) -> (WireValue, int) {
    if nb.connected() {
        (
            if nb.signal() > acc.0.signal() + 3 {
                decayed(nb, 1)
            } else {
                acc.0
            },
            acc.1 + 1,
        )
    } else {
        acc
    }
}

pub proof fn lemma_neighbour_step_bounded(acc: (WireValue, int), nb: WireValue)
    requires
        acc.0.signal() <= MAX_UPDATE_SIGNAL - 1,
        nb.signal() <= MAX_UPDATE_SIGNAL,
    ensures
        neighbour_step(acc, nb).0.signal() <= MAX_UPDATE_SIGNAL - 1,
{
}

fn neighbour_step_exec(acc: (WireValue, u8), nb: WireValue) -> (r: (WireValue, u8))
    requires
        acc.0.signal() <= MAX_UPDATE_SIGNAL - 1,
        nb.signal() <= MAX_UPDATE_SIGNAL,
        acc.1 < 4,
    ensures
        (r.0, r.1 as int) == neighbour_step((acc.0, acc.1 as int), nb),
        r.0.signal() <= MAX_UPDATE_SIGNAL - 1,
        r.1 <= acc.1 + 1,
{
    let (mut value, mut count) = acc;
    if nb.connected() {
        count = count + 1;
        if nb.signal() > value.signal() + 3 {
            value = nb.decay(1);
        }
    }
    (value, count)
}

/// A wire: its colour and the points between which it runs.
pub type WirePoints = (WireColor, Vec<(usize, usize)>);

pub open spec fn min_usize(a: usize, b: usize) -> usize {
    if a <= b {
        a
    } else {
        b
    }
}

pub open spec fn max_usize(a: usize, b: usize) -> usize {
    if a <= b {
        b
    } else {
        a
    }
}

/// Whether `(x, y)` lies in the rectangle spanned by `p` and `q`.
pub open spec fn on_segment(p: (usize, usize), q: (usize, usize), x: int, y: int) -> bool {
    &&& min_usize(p.0, q.0) <= x <= max_usize(p.0, q.0)
    &&& min_usize(p.1, q.1) <= y <= max_usize(p.1, q.1)
}

/// What laying a wire of colour `color` in cell `(x, y)` of `g0` makes of
/// it (see `WireGrid::make_wire`).
pub open spec fn wire_made(g0: WireGrid, g1: WireGrid, x: usize, y: usize, color: WireColor) -> bool {
    &&& g1.wf()
    &&& g1.w() == g0.w()
    &&& g1.h() == g0.h()
    &&& color != WireColor::Bundle ==> {
        &&& g1.cells() == g0.cells().update(
            cell_index(g0.w(), x as int, y as int),
            g0.cells()[cell_index(g0.w(), x as int, y as int)].with_value(
                color.idx(),
                WireValue::NoSignal { terminal: false },
            ),
        )
        &&& g1.inputs() == g0.inputs()
        &&& g1.outputs() == g0.outputs()
    }
    &&& color == WireColor::Bundle ==> match g0.joined_bundle(x as int, y as int) {
        None => {
            &&& g1.cells() == g0.cells()
            &&& g1.inputs() == g0.inputs()
            &&& g1.outputs() == g0.outputs()
            &&& forall|c: int|
                0 <= c < 5 ==> #[trigger] g1.wires(c) == g0.wires(c)
        },
        Some(id) => {
            let merged = g0.merged_cells(
                g0.bundles_around(x as int, y as int),
                id,
            );
            let k = cell_index(g0.w(), x as int, y as int);
            &&& g1.cells() == merged.update(
                k,
                merged[k].with_value(0, WireValue::Bundle { bundle_id: id }),
            )
            &&& g0.bundles_around(x as int, y as int).len() != 1 ==> {
                &&& g1.inputs() == g0.inputs().push(
                    WireBundle::empty_spec(),
                )
                &&& g1.outputs() == g0.outputs().push(
                    WireBundle::empty_spec(),
                )
            }
            &&& g0.bundles_around(x as int, y as int).len() == 1 ==> {
                &&& g1.inputs() == g0.inputs()
                &&& g1.outputs() == g0.outputs()
            }
        },
    }
    &&& (color != WireColor::Bundle || g0.joined_bundle(x as int, y as int) is Some)
        ==> forall|c: int|
        0 <= c < 5 ==> #[trigger] g1.wires(c) == if c == color.idx() && in_wire_area(
            g0.w(),
            g0.h(),
            (x, y),
        ) {
            g0.wires(c).push((x, y))
        } else {
            g0.wires(c)
        }
}

/// A grid as `WireGrid::new` makes it: of the given size, with no wire
/// anywhere, no remembered wires and no bundles.
pub open spec fn is_new_grid(g: WireGrid, width: int, height: int) -> bool {
    &&& g.wf()
    &&& g.w() == width
    &&& g.h() == height
    &&& g.cells().len() == width * height
    &&& forall|k: int, c: int|
        0 <= k < width * height && 0 <= c < 5 ==> #[trigger] g.cells()[k]@[c] == WireValue::NotConnected
    &&& forall|c: int| 0 <= c < 5 ==> #[trigger] g.wires(c).len() == 0
    &&& g.inputs().len() == 0
    &&& g.outputs().len() == 0
}

/// `states` runs through laying a wire in each of `cells` in turn: each
/// state is what `make_wire` makes of the one before.
pub open spec fn wires_laid(states: Seq<WireGrid>, cells: Seq<(usize, usize, WireColor)>) -> bool {
    &&& states.len() == cells.len() + 1
    &&& forall|i: int|
        0 <= i < cells.len() ==> wire_made(states[i], states[i + 1], (#[trigger] cells[i]).0, cells[i].1, cells[i].2)
}

/// `n` cells of row `y`, from column `x1` on.
pub open spec fn row_cells(x1: int, n: int, y: int, color: WireColor) -> Seq<(usize, usize, WireColor)> {
    Seq::new(n as nat, |i: int| ((x1 + i) as usize, y as usize, color))
}

/// The cells of the first `rows` rows of the rectangle with columns `x1` to
/// `x2` and top row `y1`, row by row.
pub open spec fn rect_cells(x1: int, x2: int, y1: int, rows: int, color: WireColor) -> Seq<(usize, usize, WireColor)>
    decreases rows,
{
    if rows <= 0 {
        Seq::empty()
    } else {
        rect_cells(x1, x2, y1, rows - 1, color) + row_cells(x1, x2 - x1 + 1, y1 + rows - 1, color)
    }
}

/// The cells of the rectangle spanned by `p` and `q`, row by row.
pub open spec fn segment_cells(p: (usize, usize), q: (usize, usize), color: WireColor) -> Seq<(usize, usize, WireColor)> {
    rect_cells(
        min_usize(p.0, q.0) as int,
        max_usize(p.0, q.0) as int,
        min_usize(p.1, q.1) as int,
        max_usize(p.1, q.1) - min_usize(p.1, q.1) + 1,
        color,
    )
}

/// The number of segments of a wire.
pub open spec fn segment_count(points: Seq<(usize, usize)>) -> int {
    if points.len() >= 2 {
        points.len() - 1
    } else {
        0
    }
}

/// The cells of the first `j` segments of a wire.
pub open spec fn wire_cells(points: Seq<(usize, usize)>, color: WireColor, j: int) -> Seq<(usize, usize, WireColor)>
    decreases j,
{
    if j <= 0 {
        Seq::empty()
    } else {
        wire_cells(points, color, j - 1) + segment_cells(points[j - 1], points[j], color)
    }
}

/// The cells of the first `i` wires, in the order in which they are laid.
pub open spec fn laid_cells(wire_points: Seq<WirePoints>, i: int) -> Seq<(usize, usize, WireColor)>
    decreases i,
{
    if i <= 0 {
        Seq::empty()
    } else {
        laid_cells(wire_points, i - 1) + wire_cells(
            wire_points[i - 1].1@,
            wire_points[i - 1].0,
            segment_count(wire_points[i - 1].1@),
        )
    }
}

/// One more cell laid extends the run.
proof fn lemma_wires_laid_push(
    states: Seq<WireGrid>,
    cells: Seq<(usize, usize, WireColor)>,
    g: WireGrid,
    c: (usize, usize, WireColor),
)
    requires
        wires_laid(states, cells),
        wire_made(states.last(), g, c.0, c.1, c.2),
    ensures
        wires_laid(states.push(g), cells.push(c)),
{
    let s2 = states.push(g);
    let c2 = cells.push(c);
    assert forall|i: int| 0 <= i < c2.len() implies wire_made(s2[i], s2[i + 1], (#[trigger] c2[i]).0, c2[i].1, c2[i].2) by {
        if i < cells.len() {
            assert(c2[i] == cells[i]);
            assert(wire_made(states[i], states[i + 1], cells[i].0, cells[i].1, cells[i].2));
        }
    }
}

/// Two runs, the second starting where the first ends, make one.
proof fn lemma_wires_laid_concat(
    s1: Seq<WireGrid>,
    c1: Seq<(usize, usize, WireColor)>,
    s2: Seq<WireGrid>,
    c2: Seq<(usize, usize, WireColor)>,
)
    requires
        wires_laid(s1, c1),
        wires_laid(s2, c2),
        s1.last() == s2[0],
    ensures
        wires_laid(s1 + s2.drop_first(), c1 + c2),
        (s1 + s2.drop_first())[0] == s1[0],
        (s1 + s2.drop_first()).last() == s2.last(),
{
    let s = s1 + s2.drop_first();
    let c = c1 + c2;
    assert forall|i: int| 0 <= i < c.len() implies wire_made(s[i], s[i + 1], (#[trigger] c[i]).0, c[i].1, c[i].2) by {
        if i < c1.len() {
            assert(c[i] == c1[i]);
            assert(wire_made(s1[i], s1[i + 1], c1[i].0, c1[i].1, c1[i].2));
        } else {
            let j = i - c1.len();
            assert(c[i] == c2[j]);
            assert(wire_made(s2[j], s2[j + 1], c2[j].0, c2[j].1, c2[j].2));
        }
    }
}

/// Whether one of the first `upto` segments of a wire covers `(x, y)`.
pub open spec fn drawn_in(points: Seq<(usize, usize)>, x: int, y: int, upto: int) -> bool {
    exists|j: int|
        0 <= j < upto && j + 1 < points.len() && on_segment(#[trigger] points[j], points[j + 1], x, y)
}

/// Whether one of the first `upto` wires of colour index `c` covers `(x, y)`.
pub open spec fn drawn_upto(wires: Seq<WirePoints>, c: int, x: int, y: int, upto: int) -> bool {
    exists|i: int|
        0 <= i < upto && (#[trigger] wires[i]).0.idx() == c && drawn_in(
            wires[i].1@,
            x,
            y,
            wires[i].1@.len() as int,
        )
}

/// Whether a wire of colour index `c` covers `(x, y)`.
pub open spec fn drawn(wires: Seq<WirePoints>, c: int, x: int, y: int) -> bool {
    drawn_upto(wires, c, x, y, wires.len() as int)
}

/// A point with a neighbour on every side, where bundle wires can be laid.
pub open spec fn interior_point(width: int, height: int, p: (usize, usize)) -> bool {
    &&& 1 <= p.0 && p.0 + 1 < width
    &&& 1 <= p.1 && p.1 + 1 < height
    &&& p.0 < i32::MAX && p.1 < i32::MAX
}


/// The step from one wire cell to the next.
pub open spec fn direction(a: (usize, usize), b: (usize, usize)) -> (int, int) {
    (b.0 - a.0, b.1 - a.1)
}

/// Whether the wire turns at position `i` of a contiguous list of wire
/// cells: the step leaving it differs from the step arriving (the first cell
/// counts as arriving from no step at all).
pub open spec fn turns_at(ws: Seq<(usize, usize)>, i: int) -> bool {
    direction(ws[i], ws[i + 1]) != if i == 0 {
        (0, 0)
    } else {
        direction(ws[i - 1], ws[i])
    }
}

/// The cells among the first `n` (all but the last of the list) at which
/// the wire turns.
pub open spec fn turning_points(ws: Seq<(usize, usize)>, n: int) -> Seq<(usize, usize)>
    decreases n,
{
    if n <= 0 {
        Seq::empty()
    } else if turns_at(ws, n - 1) {
        turning_points(ws, n - 1).push(ws[n - 1])
    } else {
        turning_points(ws, n - 1)
    }
}

/// A wire given by its inflection points: the turning cells and the last
/// cell. Lists of fewer than two cells are kept as they are.
pub open spec fn inflection_points(ws: Seq<(usize, usize)>) -> Seq<(usize, usize)> {
    if ws.len() < 2 {
        ws
    } else {
        turning_points(ws, ws.len() - 1).push(ws.last())
    }
}

pub proof fn lemma_turning_points_subset(ws: Seq<(usize, usize)>, n: int)
    requires
        n <= ws.len(),
    ensures
        forall|k: int| 0 <= k < turning_points(ws, n).len() ==> exists|i: int| 0 <= i < n && #[trigger] turning_points(ws, n)[k] == ws[i],
    decreases n,
{
    if n > 0 {
        lemma_turning_points_subset(ws, n - 1);
        let prev = turning_points(ws, n - 1);
        assert forall|k: int| 0 <= k < turning_points(ws, n).len() implies exists|i: int| 0 <= i < n && #[trigger] turning_points(ws, n)[k] == ws[i] by {
            if k < prev.len() {
                assert(turning_points(ws, n)[k] == prev[k]);
                let i = choose|i: int| 0 <= i < n - 1 && #[trigger] prev[k] == ws[i];
                assert(turning_points(ws, n)[k] == ws[i]);
            } else {
                assert(turning_points(ws, n)[k] == ws[n - 1]);
            }
        }
    }
}

/// Every inflection point is a cell of the wire.
pub proof fn lemma_inflection_points_subset(ws: Seq<(usize, usize)>)
    ensures
        forall|k: int| 0 <= k < inflection_points(ws).len() ==> ws.contains(#[trigger] inflection_points(ws)[k]),
        ws.len() > 0 ==> inflection_points(ws).len() > 0,
{
    if ws.len() >= 2 {
        lemma_turning_points_subset(ws, ws.len() - 1);
        assert forall|k: int| 0 <= k < inflection_points(ws).len() implies ws.contains(#[trigger] inflection_points(ws)[k]) by {
            let tp = turning_points(ws, ws.len() - 1);
            if k < tp.len() {
                assert(inflection_points(ws)[k] == tp[k]);
                let i = choose|i: int| 0 <= i < ws.len() - 1 && #[trigger] tp[k] == ws[i];
                assert(ws[i] == inflection_points(ws)[k]);
            } else {
                assert(inflection_points(ws)[k] == ws[ws.len() - 1]);
            }
        }
    } else {
        assert forall|k: int| 0 <= k < inflection_points(ws).len() implies ws.contains(#[trigger] inflection_points(ws)[k]) by {
            assert(ws[k] == inflection_points(ws)[k]);
        }
    }
}

/// Given a contiguous list of wires, keeps only the inflection points.
pub fn wire_set_into_points(wire_set: Vec<(usize, usize)>) -> (points: Vec<(usize, usize)>)
    requires
        forall|i: int| 0 <= i < wire_set@.len() ==> (#[trigger] wire_set@[i]).0 <= i32::MAX && wire_set@[i].1 <= i32::MAX,
    ensures
        points@ == inflection_points(wire_set@),
{
    if wire_set.len() < 2 {
        return wire_set;
    }
    let mut last_direction: (i32, i32) = (0, 0);
    let mut points: Vec<(usize, usize)> = Vec::new();
    let n = wire_set.len();
    let mut index: usize = 0;
    while index + 1 < n
        invariant
            n == wire_set@.len(),
            n >= 2,
            index + 1 <= n,
            forall|i: int| 0 <= i < wire_set@.len() ==> (#[trigger] wire_set@[i]).0 <= i32::MAX && wire_set@[i].1 <= i32::MAX,
            points@ == turning_points(wire_set@, index as int),
            (last_direction.0 as int, last_direction.1 as int) == if index == 0 {
                (0int, 0int)
            } else {
                direction(wire_set@[index - 1], wire_set@[index as int])
            },
        decreases n - index,
    {
        let previous_wire = wire_set[index];
        let next_wire = wire_set[index + 1];
        let new_direction = (
            next_wire.0 as i32 - previous_wire.0 as i32,
            next_wire.1 as i32 - previous_wire.1 as i32,
        );
        if new_direction.0 != last_direction.0 || new_direction.1 != last_direction.1 {
            points.push(previous_wire);
        }
        last_direction = new_direction;
        index = index + 1;
    }
    points.push(wire_set[n - 1]);
    points
}


/// Whether `last` is the cell `target`.
fn matches_cell(last: Option<(usize, usize)>, target: (usize, usize)) -> (r: bool)
    ensures
        r == (last == Some(target)),
{
    match last {
        Some(p) => p.0 == target.0 && p.1 == target.1,
        None => false,
    }
}

/// The state of the scan that groups wire cells into sets: the set that
/// each cell of the colour being scanned joined (keyed by cell index), the
/// cells of each set, and each set's colour.
pub type SetScan = (Map<usize, usize>, Seq<Seq<(usize, usize)>>, Seq<WireColor>);

/// The set turned round so that it ends at `target`, unless it already
/// does.
pub open spec fn turned(set: Seq<(usize, usize)>, target: (usize, usize)) -> Seq<(usize, usize)> {
    if ends_at(set, target) {
        set
    } else {
        set.reverse()
    }
}

pub open spec fn ends_at(set: Seq<(usize, usize)>, target: (usize, usize)) -> bool {
    set.len() > 0 && set.last() == target
}

/// The scan state with cell `k` (at `p`) starting a new set of `color`.
pub open spec fn new_set(st: SetScan, k: int, p: (usize, usize), color: WireColor) -> SetScan {
    (st.0.insert(k as usize, st.1.len() as usize), st.1.push(seq![p]), st.2.push(color))
}

/// The scan state with cell `k` (at `p`) appended to set `s`.
pub open spec fn join_set(st: SetScan, k: int, p: (usize, usize), s: usize) -> SetScan {
    (st.0.insert(k as usize, s), st.1.update(s as int, st.1[s as int].push(p)), st.2)
}

/// The set that cell `k` joined, if any.
pub open spec fn set_of(map: Map<usize, usize>, k: int) -> Option<usize> {
    if map.contains_key(k as usize) {
        Some(map[k as usize])
    } else {
        None
    }
}

/// `usize` keys are ordered as std documents, so a map of them behaves as
/// its view says.
proof fn lemma_keys_ordered()
    ensures
        vstd::laws_cmp::obeys_cmp::<usize>(),
{
    broadcast use vstd::laws_cmp::group_laws_cmp;

}

/// The set that cell `k` joined, looked up in the map.
fn map_get(map: &BTreeMap<usize, usize>, k: usize) -> (r: Option<usize>)
    ensures
        r == set_of(map@, k as int),
{
    proof {
        lemma_keys_ordered();
    }
    broadcast use vstd::std_specs::btree::group_btree_axioms;

    match map.get(&k) {
        Some(s) => Some(*s),
        None => None,
    }
}

/// The map with every cell of `cells` pointing to set `s`.
pub open spec fn repointed(map: Map<usize, usize>, w: int, cells: Seq<(usize, usize)>, s: usize) -> Map<usize, usize>
    decreases cells.len(),
{
    if cells.len() == 0 {
        map
    } else {
        repointed(map, w, cells.drop_last(), s).insert(
            cell_index(w, cells.last().0 as int, cells.last().1 as int) as usize,
            s,
        )
    }
}

/// The cells of each set after set `s` changed.
proof fn lemma_set_views_kept(a: Seq<Vec<(usize, usize)>>, b: Seq<Vec<(usize, usize)>>, s: int)
    requires
        other_sets_kept(a, b, s),
        0 <= s < a.len(),
    ensures
        set_views(b) == set_views(a).update(s, b[s]@),
{
    assert(set_views(b) =~= set_views(a).update(s, b[s]@));
}

/// The non-empty sets among the first `n`, with their colours.
pub open spec fn kept_sets(sets: Seq<Seq<(usize, usize)>>, colors: Seq<WireColor>, n: int) -> Seq<(WireColor, Seq<(usize, usize)>)>
    decreases n,
{
    if n <= 0 {
        Seq::empty()
    } else if sets[n - 1].len() > 0 {
        kept_sets(sets, colors, n - 1).push((colors[n - 1], sets[n - 1]))
    } else {
        kept_sets(sets, colors, n - 1)
    }
}

/// The cells of each set.
pub open spec fn set_views(sets: Seq<Vec<(usize, usize)>>) -> Seq<Seq<(usize, usize)>> {
    Seq::new(sets.len(), |i: int| sets[i]@)
}

/// `b` is `a` with only set `s` changed.
pub open spec fn other_sets_kept(a: Seq<Vec<(usize, usize)>>, b: Seq<Vec<(usize, usize)>>, s: int) -> bool {
    &&& a.len() == b.len()
    &&& forall|i: int| 0 <= i < a.len() && i != s ==> #[trigger] b[i] == a[i]
}

/// Appends a cell to set `s`.
fn set_push(sets: &mut Vec<Vec<(usize, usize)>>, s: usize, p: (usize, usize))
    requires
        s < old(sets)@.len(),
    ensures
        other_sets_kept(old(sets)@, final(sets)@, s as int),
        final(sets)@[s as int]@ == old(sets)@[s as int]@.push(p),
{
    let mut tmp: Vec<(usize, usize)> = Vec::new();
    std::mem::swap(&mut sets[s], &mut tmp);
    tmp.push(p);
    std::mem::swap(&mut sets[s], &mut tmp);
}

/// Replaces set `s` by `v`.
fn set_replace(sets: &mut Vec<Vec<(usize, usize)>>, s: usize, v: Vec<(usize, usize)>)
    requires
        s < old(sets)@.len(),
    ensures
        other_sets_kept(old(sets)@, final(sets)@, s as int),
        final(sets)@[s as int]@ == v@,
{
    let mut tmp = v;
    std::mem::swap(&mut sets[s], &mut tmp);
}

/// The cells of set `s` in reverse order.
fn reversed_set(sets: &Vec<Vec<(usize, usize)>>, s: usize) -> (r: Vec<(usize, usize)>)
    requires
        s < sets@.len(),
    ensures
        r@ == sets@[s as int]@.reverse(),
{
    let set = &sets[s];
    let n = set.len();
    let mut r: Vec<(usize, usize)> = Vec::new();
    let mut i: usize = n;
    while i > 0
        invariant
            i <= n,
            n == set@.len(),
            set@ == sets@[s as int]@,
            r@.len() == n - i,
            forall|k: int| 0 <= k < r@.len() ==> #[trigger] r@[k] == set@[n - 1 - k],
        decreases i,
    {
        i = i - 1;
        r.push(set[i]);
    }
    assert(r@ =~= sets@[s as int]@.reverse());
    r
}

/// The last cell of set `s`, if it has any.
fn set_last(sets: &Vec<Vec<(usize, usize)>>, s: usize) -> (r: Option<(usize, usize)>)
    requires
        s < sets@.len(),
    ensures
        r == if sets@[s as int]@.len() == 0 {
            None
        } else {
            Some(sets@[s as int]@.last())
        },
{
    let n = sets[s].len();
    if n == 0 {
        None
    } else {
        Some(sets[s][n - 1])
    }
}

/// An element-by-element copy of a vector.
pub fn copy_vec<T: Copy>(v: &Vec<T>) -> (r: Vec<T>)
    ensures
        r@ == v@,
{
    let mut r: Vec<T> = Vec::new();
    let mut i: usize = 0;
    while i < v.len()
        invariant
            i <= v@.len(),
            r@ == v@.take(i as int),
        decreases v@.len() - i,
    {
        r.push(v[i]);
        i = i + 1;
        assert(r@ =~= v@.take(i as int));
    }
    assert(v@.take(v@.len() as int) =~= v@);
    r
}

/// Whether one of the first `upto` positions of `ws` is cell `k` of a grid
/// `width` cells wide.
pub open spec fn lists_cell(ws: Seq<(usize, usize)>, width: int, k: int, upto: int) -> bool {
    exists|j: int|
        0 <= j < upto && cell_index(width, (#[trigger] ws[j]).0 as int, ws[j].1 as int) == k
}

/// The predicate that holds of every position but `p0`.
pub open spec fn other_than(p0: (usize, usize)) -> spec_fn((usize, usize)) -> bool {
    |p: (usize, usize)| p != p0
}

impl WireGrid {
    pub closed spec fn w(&self) -> int {
        self.width as int
    }

    pub closed spec fn h(&self) -> int {
        self.height as int
    }

    /// The cells in row-major order.
    pub closed spec fn cells(&self) -> Seq<WireCell> {
        self.cells@
    }

    /// The wires of colour index `c` that updates visit, in insertion order.
    pub closed spec fn wires(&self, c: int) -> Seq<(usize, usize)> {
        self.connected_wires@[c]@
    }

    pub closed spec fn inputs(&self) -> Seq<WireBundle> {
        self.bundle_inputs@
    }

    pub closed spec fn outputs(&self) -> Seq<WireBundle> {
        self.bundle_outputs@
    }

    /// The value of colour index `c` in cell `(x, y)`.
    pub open spec fn value_at(&self, x: int, y: int, c: int) -> WireValue {
        self.cells()[cell_index(self.w(), x, y)]@[c]
    }

    pub open spec fn in_bounds(&self, x: int, y: int) -> bool {
        0 <= x < self.w() && 0 <= y < self.h()
    }

    /// Well-formedness: one cell per position, remembered wires inside the
    /// wire area, and as many bundle inputs as outputs (at most one per
    /// bundle id).
    pub closed spec fn wf(&self) -> bool {
        &&& self.cells@.len() == self.width * self.height
        &&& forall|c: int, k: int|
            0 <= c < 5 && 0 <= k < self.connected_wires@[c]@.len() ==> in_wire_area(
                self.width as int,
                self.height as int,
                #[trigger] self.connected_wires@[c]@[k],
            )
        &&& self.bundle_inputs@.len() == self.bundle_outputs@.len()
        &&& self.bundle_inputs@.len() <= 256
    }

    pub proof fn lemma_wf(&self)
        requires
            self.wf(),
        ensures
            self.cells().len() == self.w() * self.h(),
            0 <= self.w() <= usize::MAX,
            0 <= self.h() <= usize::MAX,
            forall|c: int, k: int|
                0 <= c < 5 && 0 <= k < self.wires(c).len() ==> in_wire_area(
                    self.w(),
                    self.h(),
                    #[trigger] self.wires(c)[k],
                ),
            self.inputs().len() == self.outputs().len(),
            self.inputs().len() <= 256,
    {
    }

    pub fn new(width: usize, height: usize) -> (g: WireGrid)
        requires
            width * height <= usize::MAX,
        ensures
            g.wf(),
            g.w() == width,
            g.h() == height,
            g.cells().len() == width * height,
            forall|k: int, c: int|
                0 <= k < width * height && 0 <= c < 5 ==> #[trigger] g.cells()[k]@[c]
                    == WireValue::NotConnected,
            forall|c: int| 0 <= c < 5 ==> #[trigger] g.wires(c).len() == 0,
            g.inputs().len() == 0,
            g.outputs().len() == 0,
    {
        let n = width * height;
        let mut cells: Vec<WireCell> = Vec::new();
        let mut i: usize = 0;
        while i < n
            invariant
                i <= n,
                cells@.len() == i,
                forall|k: int, c: int|
                    0 <= k < i && 0 <= c < 5 ==> #[trigger] cells@[k]@[c]
                        == WireValue::NotConnected,
            decreases n - i,
        {
            cells.push(WireCell::empty());
            i = i + 1;
        }
        WireGrid {
            cells,
            width,
            height,
            connected_wires: [Vec::new(), Vec::new(), Vec::new(), Vec::new(), Vec::new()],
            bundle_inputs: Vec::new(),
            bundle_outputs: Vec::new(),
        }
    }

    pub fn size(&self) -> (r: (usize, usize))
        ensures
            r.0 == self.w(),
            r.1 == self.h(),
    {
        (self.width, self.height)
    }

    pub fn cell(&self, x: usize, y: usize) -> (r: &WireCell)
        requires
            self.wf(),
            self.in_bounds(x as int, y as int),
        ensures
            *r == self.cells()[cell_index(self.w(), x as int, y as int)],
    {
        proof {
            lemma_cell_index_bounds(self.width as int, self.height as int, x as int, y as int);
        }
        let _len = self.cells.len();
        &self.cells[y * self.width + x]
    }

    pub fn cell_mut(&mut self, x: usize, y: usize) -> (r: &mut WireCell)
        requires
            old(self).wf(),
            old(self).in_bounds(x as int, y as int),
        ensures
            *r == old(self).cells()[cell_index(old(self).w(), x as int, y as int)],
            final(self).cells() == old(self).cells().update(
                cell_index(old(self).w(), x as int, y as int),
                *final(r),
            ),
            final(self).wf(),
            final(self).w() == old(self).w(),
            final(self).h() == old(self).h(),
            forall|c: int| #[trigger] final(self).wires(c) == old(self).wires(c),
            final(self).inputs() == old(self).inputs(),
            final(self).outputs() == old(self).outputs(),
    {
        proof {
            lemma_cell_index_bounds(self.width as int, self.height as int, x as int, y as int);
        }
        let w = self.width;
        let _len = self.cells.len();
        &mut self.cells[y * w + x]
    }

    /// The input buffer of a bundle, if the bundle exists.
    pub fn wire_bundle_input_mut(&mut self, bundle_id: u8) -> (r: Option<&mut WireBundle>)
        requires
            old(self).wf(),
        ensures
            (bundle_id as int) < old(self).inputs().len() <==> r is Some,
            match r {
                Some(b) => {
                    &&& *b == old(self).inputs()[bundle_id as int]
                    &&& final(self).inputs() == old(self).inputs().update(bundle_id as int, *final(b))
                },
                None => final(self).inputs() == old(self).inputs(),
            },
            final(self).wf(),
            final(self).w() == old(self).w(),
            final(self).h() == old(self).h(),
            final(self).cells() == old(self).cells(),
            forall|c: int| #[trigger] final(self).wires(c) == old(self).wires(c),
            final(self).outputs() == old(self).outputs(),
    {
        let bundle_id: usize = bundle_id as usize;
        if bundle_id < self.bundle_inputs.len() {
            Some(&mut self.bundle_inputs[bundle_id])
        } else {
            None
        }
    }

    /// The output buffer of a bundle, if the bundle exists.
    pub fn wire_bundle_output_mut(&mut self, bundle_id: u8) -> (r: Option<&mut WireBundle>)
        requires
            old(self).wf(),
        ensures
            (bundle_id as int) < old(self).outputs().len() <==> r is Some,
            match r {
                Some(b) => {
                    &&& *b == old(self).outputs()[bundle_id as int]
                    &&& final(self).outputs() == old(self).outputs().update(
                        bundle_id as int,
                        *final(b),
                    )
                },
                None => final(self).outputs() == old(self).outputs(),
            },
            final(self).wf(),
            final(self).w() == old(self).w(),
            final(self).h() == old(self).h(),
            final(self).cells() == old(self).cells(),
            forall|c: int| #[trigger] final(self).wires(c) == old(self).wires(c),
            final(self).inputs() == old(self).inputs(),
    {
        let bundle_id: usize = bundle_id as usize;
        if bundle_id < self.bundle_outputs.len() {
            Some(&mut self.bundle_outputs[bundle_id])
        } else {
            None
        }
    }

    /// Moves every bundle's collected input to its output and empties the
    /// inputs.
    pub fn update_bundles(&mut self)
        requires
            old(self).wf(),
        ensures
            final(self).wf(),
            final(self).outputs() == old(self).inputs(),
            final(self).inputs().len() == old(self).inputs().len(),
            forall|i: int|
                0 <= i < final(self).inputs().len() ==> (#[trigger] final(self).inputs()[i]).is_empty_buffer(),
            final(self).w() == old(self).w(),
            final(self).h() == old(self).h(),
            final(self).cells() == old(self).cells(),
            forall|c: int| #[trigger] final(self).wires(c) == old(self).wires(c),
    {
        let n = self.bundle_inputs.len();
        let mut i: usize = 0;
        while i < n
            invariant
                self.wf(),
                n == self.bundle_inputs@.len(),
                i <= n,
                self.width == old(self).width,
                self.height == old(self).height,
                self.cells@ == old(self).cells@,
                self.connected_wires == old(self).connected_wires,
                forall|k: int| 0 <= k < i ==> #[trigger] self.bundle_outputs@[k] == old(self).bundle_inputs@[k],
                forall|k: int| 0 <= k < i ==> (#[trigger] self.bundle_inputs@[k]).is_empty_buffer(),
                forall|k: int| i <= k < n ==> #[trigger] self.bundle_inputs@[k] == old(self).bundle_inputs@[k],
            decreases n - i,
        {
            let input = self.bundle_inputs[i];
            self.bundle_outputs[i] = input;
            self.bundle_inputs[i] = WireBundle::empty();
            i = i + 1;
        }
        assert(self.bundle_outputs@ =~= old(self).bundle_inputs@);
    }

    /// The neighbouring cells, in the order down, right, up, left.
    fn neighbours(&self, x: usize, y: usize) -> (r: [WireCell; 4])
        requires
            self.wf(),
            1 <= x && x + 1 < self.w(),
            1 <= y && y + 1 < self.h(),
        ensures
            forall|i: int|
                0 <= i < 4 ==> #[trigger] r@[i] == self.cells()[cell_index(
                    self.w(),
                    neighbour_pos(x as int, y as int, i).0,
                    neighbour_pos(x as int, y as int, i).1,
                )],
    {
        [*self.cell(x, y + 1), *self.cell(x + 1, y), *self.cell(x, y - 1), *self.cell(x - 1, y)]
    }

    /// Returns whether a cell has the following neighbours: [down, right, up,
    /// left].
    pub fn has_neighbours(&self, wire_color: WireColor, x: usize, y: usize) -> (r: [bool; 4])
        requires
            self.wf(),
            1 <= x && x + 1 < self.w(),
            1 <= y && y + 1 < self.h(),
            x < i32::MAX,
            y < i32::MAX,
        ensures
            forall|i: int|
                0 <= i < 4 ==> #[trigger] r@[i] == self.value_at(
                    neighbour_pos(x as int, y as int, i).0,
                    neighbour_pos(x as int, y as int, i).1,
                    wire_color.idx(),
                ).connected(),
    {
        let neighbours = self.neighbours(x, y);
        let c = wire_color.index();
        let mut has_neighbours = [false; 4];
        let mut index: usize = 0;
        while index < 4
            invariant
                index <= 4,
                c == wire_color.idx(),
                forall|i: int|
                    0 <= i < 4 ==> #[trigger] neighbours@[i] == self.cells()[cell_index(
                        self.w(),
                        neighbour_pos(x as int, y as int, i).0,
                        neighbour_pos(x as int, y as int, i).1,
                    )],
                forall|i: int|
                    0 <= i < index ==> #[trigger] has_neighbours@[i] == neighbours@[i]@[c as int].connected(),
                forall|i: int| index <= i < 4 ==> #[trigger] has_neighbours@[i] == false,
            decreases 4 - index,
        {
            if neighbours[index].value[c].connected() {
                has_neighbours[index] = true;
            }
            index = index + 1;
        }
        has_neighbours
    }

    /// Removes a thin wire from a cell. Bundles are never removed.
    pub fn clear_wire(&mut self, x: usize, y: usize, color: WireColor)
        requires
            old(self).wf(),
            old(self).in_bounds(x as int, y as int),
            color != WireColor::Bundle ==> old(self).w() >= 2,
        ensures
            final(self).wf(),
            final(self).w() == old(self).w(),
            final(self).h() == old(self).h(),
            final(self).inputs() == old(self).inputs(),
            final(self).outputs() == old(self).outputs(),
            color == WireColor::Bundle ==> final(self).cells() == old(self).cells(),
            color != WireColor::Bundle ==> final(self).cells() == old(self).cells().update(
                cell_index(old(self).w(), x as int, y as int),
                old(self).cells()[cell_index(old(self).w(), x as int, y as int)].with_value(
                    color.idx(),
                    WireValue::NotConnected,
                ),
            ),
            forall|c: int|
                0 <= c < 5 ==> #[trigger] final(self).wires(c) == if c == color.idx() && color
                    != WireColor::Bundle && in_wire_area(
                    old(self).w(),
                    old(self).h(),
                    (x, y),
                ) {
                    old(self).wires(c).filter(other_than((x, y)))
                } else {
                    old(self).wires(c)
                },
    {
        if color == WireColor::Bundle {
            // Splitting a bundle would need to detect loops; bundles stay.
            return;
        }
        let ci = color.index();
        let cell = self.cell_mut(x, y);
        cell.value[ci] = WireValue::NotConnected;
        if 1 <= x && x < self.width - 2 && 1 <= y && y < self.height - 1 {
            assert(self.wires(ci as int) == old(self).wires(ci as int));
            let ghost ws = self.connected_wires@[ci as int]@;
            let mut kept: Vec<(usize, usize)> = Vec::new();
            let mut j: usize = 0;
            let n = self.connected_wires[ci].len();
            while j < n
                invariant
                    self.wf(),
                    ci < 5,
                    n == ws.len(),
                    ws == self.connected_wires@[ci as int]@,
                    forall|c: int| #[trigger] self.wires(c) == old(self).wires(c),
                    j <= n,
                    kept@ == ws.take(j as int).filter(other_than((x, y))),
                    forall|k: int|
                        0 <= k < kept@.len() ==> in_wire_area(
                            self.width as int,
                            self.height as int,
                            #[trigger] kept@[k],
                        ),
                decreases n - j,
            {
                let p = self.connected_wires[ci][j];
                proof {
                    assert(in_wire_area(self.width as int, self.height as int, self.connected_wires@[ci as int]@[j as int]));
                    reveal_with_fuel(Seq::<_>::filter, 1);
                    assert(ws.take(j + 1).drop_last() =~= ws.take(j as int));
                }
                if p.0 != x || p.1 != y {
                    kept.push(p);
                }
                j = j + 1;
            }
            assert(ws.take(n as int) =~= ws);
            let ghost before = self.connected_wires@;
            assert forall|c: int| 0 <= c < 5 implies #[trigger] before[c]@ == old(self).wires(c) by {
                assert(self.wires(c) == old(self).wires(c));
            }
            self.connected_wires[ci] = kept;
            assert forall|c: int| 0 <= c < 5 && c != ci implies #[trigger] self.wires(c) == old(self).wires(c) by {
                assert(self.connected_wires@[c] == before[c]);
            }
        }
    }

    /// A grid with the same size, wire lists and bundles, whose cells keep
    /// only the values of the wires that the lists name; every other value
    /// is `NotConnected`.
    pub fn clone_from(other_grid: &WireGrid) -> (g: WireGrid)
        requires
            other_grid.wf(),
        ensures
            g.wf(),
            g.w() == other_grid.w(),
            g.h() == other_grid.h(),
            forall|c: int| 0 <= c < 5 ==> #[trigger] g.wires(c) == other_grid.wires(c),
            g.inputs() == other_grid.inputs(),
            g.outputs() == other_grid.outputs(),
            g.cells().len() == other_grid.cells().len(),
            forall|k: int, c: int|
                0 <= k < g.cells().len() && 0 <= c < 5 ==> #[trigger] g.cells()[k]@[c] == if lists_cell(
                    other_grid.wires(c),
                    other_grid.w(),
                    k,
                    other_grid.wires(c).len() as int,
                ) {
                    other_grid.cells()[k]@[c]
                } else {
                    WireValue::NotConnected
                },
    {
        let n = other_grid.cells.len();
        let width = other_grid.width;
        let mut cells: Vec<WireCell> = Vec::new();
        let mut i: usize = 0;
        while i < n
            invariant
                i <= n,
                cells@.len() == i,
                forall|k: int, c: int|
                    0 <= k < i && 0 <= c < 5 ==> #[trigger] cells@[k]@[c]
                        == WireValue::NotConnected,
            decreases n - i,
        {
            cells.push(WireCell::empty());
            i = i + 1;
        }

        let mut color: usize = 0;
        while color < WIRE_COLORS
            invariant
                other_grid.wf(),
                n == other_grid.cells@.len(),
                width == other_grid.width,
                cells@.len() == n,
                color <= 5,
                forall|k: int, c: int|
                    0 <= k < n && 0 <= c < 5 ==> #[trigger] cells@[k]@[c] == if c < color
                        && lists_cell(
                        other_grid.wires(c),
                        width as int,
                        k,
                        other_grid.wires(c).len() as int,
                    ) {
                        other_grid.cells()[k]@[c]
                    } else {
                        WireValue::NotConnected
                    },
            decreases 5 - color,
        {
            let wires = &other_grid.connected_wires[color];
            let m = wires.len();
            let mut j: usize = 0;
            while j < m
                invariant
                    other_grid.wf(),
                    n == other_grid.cells@.len(),
                    width == other_grid.width,
                    cells@.len() == n,
                    color < 5,
                    wires@ == other_grid.wires(color as int),
                    m == wires@.len(),
                    j <= m,
                    forall|k: int, c: int|
                        0 <= k < n && 0 <= c < 5 ==> #[trigger] cells@[k]@[c] == if (c < color
                            && lists_cell(
                            other_grid.wires(c),
                            width as int,
                            k,
                            other_grid.wires(c).len() as int,
                        )) || (c == color && lists_cell(wires@, width as int, k, j as int)) {
                            other_grid.cells()[k]@[c]
                        } else {
                            WireValue::NotConnected
                        },
                decreases m - j,
            {
                let (x, y) = wires[j];
                proof {
                    assert(in_wire_area(other_grid.w(), other_grid.h(), other_grid.wires(color as int)[j as int]));
                    lemma_cell_index_bounds(other_grid.w(), other_grid.h(), x as int, y as int);
                }
                let k = y * width + x;
                let ghost old_cells = cells@;
                let mut cell = cells[k];
                let v = other_grid.cells[k].value[color];
                cell.value[color] = v;
                assert(cell@ == old_cells[k as int]@.update(color as int, v));
                cells[k] = cell;
                proof {
                    assert(cells@ == old_cells.update(k as int, cell));
                    assert(v == other_grid.cells()[k as int]@[color as int]);
                    assert forall|kk: int, c: int| 0 <= kk < n && 0 <= c < 5 implies #[trigger] cells@[kk]@[c]
                        == if (c < color && lists_cell(
                        other_grid.wires(c),
                        width as int,
                        kk,
                        other_grid.wires(c).len() as int,
                    )) || (c == color && lists_cell(wires@, width as int, kk, j + 1)) {
                        other_grid.cells()[kk]@[c]
                    } else {
                        WireValue::NotConnected
                    } by {
                        if kk != k {
                            assert(cells@[kk] == old_cells[kk]);
                        } else if c != color {
                            assert(cells@[kk]@[c] == old_cells[kk]@[c]);
                        }
                        if c == color {
                            if kk == k {
                                assert(cell_index(width as int, wires@[j as int].0 as int, wires@[j as int].1 as int) == kk);
                            } else {
                                if lists_cell(wires@, width as int, kk, j + 1) {
                                    let jj = choose|jj: int| 0 <= jj < j + 1 && cell_index(width as int, wires@[jj].0 as int, wires@[jj].1 as int) == kk;
                                    assert(jj != j);
                                }
                            }
                        }
                    }
                }
                j = j + 1;
            }
            color = color + 1;
        }

        WireGrid {
            cells,
            width: other_grid.width,
            height: other_grid.height,
            connected_wires: [
                copy_vec(&other_grid.connected_wires[0]),
                copy_vec(&other_grid.connected_wires[1]),
                copy_vec(&other_grid.connected_wires[2]),
                copy_vec(&other_grid.connected_wires[3]),
                copy_vec(&other_grid.connected_wires[4]),
            ],
            bundle_inputs: copy_vec(&other_grid.bundle_inputs),
            bundle_outputs: copy_vec(&other_grid.bundle_outputs),
        }
    }

    /// The bundle id of cell `k`, if its bundle wire is connected.
    pub open spec fn bundle_at(&self, k: int) -> Option<u8> {
        match self.cells()[k]@[0] {
            WireValue::Bundle { bundle_id } => Some(bundle_id),
            _ => None,
        }
    }

    /// The distinct bundle ids of the neighbours of `(x, y)`, in the order
    /// down, right, up, left of their first appearance.
    pub open spec fn bundles_around(&self, x: int, y: int) -> Seq<u8> {
        distinct_ids(
            Seq::new(
                4,
                |i: int|
                    self.bundle_at(
                        cell_index(self.w(), neighbour_pos(x, y, i).0, neighbour_pos(x, y, i).1),
                    ),
            ),
            4,
        )
    }

    /// The bundle that a new bundle wire at `(x, y)` joins: the one bundle
    /// around it, else a new bundle (there is room for 256), else none.
    pub open spec fn joined_bundle(&self, x: int, y: int) -> Option<u8> {
        let around = self.bundles_around(x, y);
        if around.len() == 1 {
            Some(around[0])
        } else if self.inputs().len() < 256 {
            Some(self.inputs().len() as u8)
        } else {
            None
        }
    }

    /// The cells after every listed bundle wire of a bundle in `ids` has
    /// been moved to bundle `new_id`.
    pub open spec fn merged_cells(&self, ids: Seq<u8>, new_id: u8) -> Seq<WireCell> {
        Seq::new(
            self.cells().len(),
            |k: int|
                if lists_cell(self.wires(0), self.w(), k, self.wires(0).len() as int) {
                    self.cells()[k].with_value(0, renamed(self.cells()[k]@[0], ids, new_id))
                } else {
                    self.cells()[k]
                },
        )
    }

    /// Finds the bundle that a bundle wire at `(x, y)` joins, creating a new
    /// bundle when there are no or several bundles around, and merges all
    /// bundles around into it.
    fn connect_bundle(&mut self, x: usize, y: usize) -> (r: Option<u8>)
        requires
            old(self).wf(),
            1 <= x && x + 1 < old(self).w(),
            1 <= y && y + 1 < old(self).h(),
        ensures
            r == old(self).joined_bundle(x as int, y as int),
            final(self).wf(),
            final(self).w() == old(self).w(),
            final(self).h() == old(self).h(),
            forall|c: int| 0 <= c < 5 ==> #[trigger] final(self).wires(c) == old(self).wires(c),
            r is None ==> final(self).cells() == old(self).cells(),
            r matches Some(id) ==> final(self).cells() == old(self).merged_cells(
                old(self).bundles_around(x as int, y as int),
                id,
            ),
            (r is Some && old(self).bundles_around(x as int, y as int).len() != 1) ==> {
                &&& final(self).inputs() == old(self).inputs().push(WireBundle::empty_spec())
                &&& final(self).outputs() == old(self).outputs().push(WireBundle::empty_spec())
            },
            (r is None || old(self).bundles_around(x as int, y as int).len() == 1) ==> {
                &&& final(self).inputs() == old(self).inputs()
                &&& final(self).outputs() == old(self).outputs()
            },
    {
        let nbs = self.neighbours(x, y);
        let ghost ids = Seq::new(
            4,
            |i: int|
                self.bundle_at(
                    cell_index(self.w(), neighbour_pos(x as int, y as int, i).0, neighbour_pos(x as int, y as int, i).1),
                ),
        );
        let mut sets: Vec<u8> = Vec::new();
        let mut i: usize = 0;
        while i < 4
            invariant
                i <= 4,
                sets@ == distinct_ids(ids, i as int),
                forall|j: int| 0 <= j < 4 ==> #[trigger] ids[j] == match nbs@[j]@[0] {
                    WireValue::Bundle { bundle_id } => Some(bundle_id),
                    _ => None,
                },
            decreases 4 - i,
        {
            if let Some(bundle_id) = nbs[i].bundle_id() {
                if !contains_u8(&sets, bundle_id) {
                    sets.push(bundle_id);
                }
            }
            i = i + 1;
        }
        assert(sets@ == self.bundles_around(x as int, y as int));

        let new_bundle_id = if sets.len() == 1 {
            sets[0]
        } else {
            let count = self.bundle_inputs.len();
            if count < 256 {
                self.bundle_inputs.push(WireBundle::empty());
                self.bundle_outputs.push(WireBundle::empty());
                count as u8
            } else {
                return None;
            }
        };

        let ghost before = *self;
        let n = self.connected_wires[0].len();
        let mut j: usize = 0;
        while j < n
            invariant
                self.wf(),
                before.wf(),
                j <= n,
                n == self.connected_wires@[0]@.len(),
                self.connected_wires == before.connected_wires,
                self.width == before.width,
                self.height == before.height,
                self.bundle_inputs == before.bundle_inputs,
                self.bundle_outputs == before.bundle_outputs,
                self.cells@.len() == before.cells@.len(),
                forall|k: int|
                    0 <= k < self.cells@.len() ==> #[trigger] self.cells@[k] == if lists_cell(
                        before.wires(0),
                        before.w(),
                        k,
                        j as int,
                    ) {
                        before.cells()[k].with_value(0, renamed(before.cells()[k]@[0], sets@, new_bundle_id))
                    } else {
                        before.cells()[k]
                    },
            decreases n - j,
        {
            let (wx, wy) = self.connected_wires[0][j];
            proof {
                assert(in_wire_area(self.w(), self.h(), self.wires(0)[j as int]));
                lemma_cell_index_bounds(self.w(), self.h(), wx as int, wy as int);
            }
            let _len = self.cells.len();
            let k = wy * self.width + wx;
            let ghost old_cells = self.cells@;
            let mut cell = self.cells[k];
            if let WireValue::Bundle { bundle_id } = cell.value[0] {
                if contains_u8(&sets, bundle_id) {
                    cell.value[0] = WireValue::Bundle { bundle_id: new_bundle_id };
                }
            }
            proof {
                assert(cell@ == old_cells[k as int]@.update(0, renamed(old_cells[k as int]@[0], sets@, new_bundle_id)));
            }
            self.cells[k] = cell;
            proof {
                assert forall|kk: int| 0 <= kk < self.cells@.len() implies #[trigger] self.cells@[kk] == if lists_cell(
                    before.wires(0),
                    before.w(),
                    kk,
                    j + 1,
                ) {
                    before.cells()[kk].with_value(0, renamed(before.cells()[kk]@[0], sets@, new_bundle_id))
                } else {
                    before.cells()[kk]
                } by {
                    if kk == k {
                        assert(cell_index(before.w(), before.wires(0)[j as int].0 as int, before.wires(0)[j as int].1 as int) == kk);
                        lemma_renamed_idempotent(before.cells()[kk]@[0], sets@, new_bundle_id);
                        assert(cell@ =~= before.cells()[kk].with_value(0, renamed(before.cells()[kk]@[0], sets@, new_bundle_id))@);
                        WireCell::lemma_view_ext(cell, before.cells()[kk].with_value(0, renamed(before.cells()[kk]@[0], sets@, new_bundle_id)));
                    } else {
                        assert(self.cells@[kk] == old_cells[kk]);
                        if lists_cell(before.wires(0), before.w(), kk, j + 1) {
                            let jj = choose|jj: int| 0 <= jj < j + 1 && cell_index(before.w(), (#[trigger] before.wires(0)[jj]).0 as int, before.wires(0)[jj].1 as int) == kk;
                            assert(jj != j);
                        }
                    }
                }
            }
            j = j + 1;
        }
        proof {
            assert(self.cells@ =~= before.merged_cells(sets@, new_bundle_id));
        }
        Some(new_bundle_id)
    }

    /// Lays a wire of the given colour in cell `(x, y)`.
    ///
    /// A thin wire starts without a signal. A bundle wire joins the bundle
    /// around it, merging all bundles around into one (see
    /// `joined_bundle`); when no bundle id is left the cell is left as it is.
    /// Wires away from the border are remembered for updates.
    pub fn make_wire(&mut self, x: usize, y: usize, color: WireColor)
        requires
            old(self).wf(),
            old(self).in_bounds(x as int, y as int),
            old(self).w() >= 2,
            color == WireColor::Bundle ==> {
                &&& 1 <= x && x + 1 < old(self).w()
                &&& 1 <= y && y + 1 < old(self).h()
                &&& x < i32::MAX && y < i32::MAX
            },
        ensures
            wire_made(*old(self), *final(self), x, y, color),
    {
        let ci = color.index();
        let new_value = if color == WireColor::Bundle {
            if let Some(bundle_id) = self.connect_bundle(x, y) {
                WireValue::Bundle { bundle_id }
            } else {
                return;
            }
        } else {
            WireValue::NoSignal { terminal: false }
        };
        let cell = self.cell_mut(x, y);
        cell.value[ci] = new_value;
        if 1 <= x && x < self.width - 2 && 1 <= y && y < self.height - 1 {
            let ghost before = self.connected_wires@;
            assert forall|c: int| 0 <= c < 5 implies #[trigger] before[c]@ == self.wires(c) by {}
            self.connected_wires[ci].push((x, y));
            assert forall|c: int| 0 <= c < 5 && c != ci implies #[trigger] self.connected_wires@[c] == before[c] by {}
        }
    }

    /// What an update reads of colour `c` in cell `k`: the cell's value if
    /// one of the colour's remembered wires lies there, else `NotConnected`.
    pub open spec fn snapshot_value(&self, k: int, c: int) -> WireValue {
        if lists_cell(self.wires(c), self.w(), k, self.wires(c).len() as int) {
            self.cells()[k]@[c]
        } else {
            WireValue::NotConnected
        }
    }

    /// What the snapshot holds of colour `c` at neighbour `i` of `(x, y)`.
    pub open spec fn snapshot_neighbour(&self, x: int, y: int, i: int, c: int) -> WireValue {
        self.snapshot_value(
            cell_index(self.w(), neighbour_pos(x, y, i).0, neighbour_pos(x, y, i).1),
            c,
        )
    }

    /// The new value of the wire of colour `c` at `(x, y)` after one update:
    /// its signal fades by 2, it takes over (faded by 1) a neighbour's
    /// signal that is more than 3 stronger, it is cut when more than two
    /// neighbours are connected, and it is a terminal when exactly one is.
    pub open spec fn updated_wire(&self, x: int, y: int, c: int) -> WireValue {
        let own = self.snapshot_value(cell_index(self.w(), x, y), c);
        let a0 = (decayed(own, 2), 0int);
        let a1 = neighbour_step(a0, self.snapshot_neighbour(x, y, 0, c));
        let a2 = neighbour_step(a1, self.snapshot_neighbour(x, y, 1, c));
        let a3 = neighbour_step(a2, self.snapshot_neighbour(x, y, 2, c));
        let a4 = neighbour_step(a3, self.snapshot_neighbour(x, y, 3, c));
        let v = if a4.1 > 2 {
            WireValue::NotConnected
        } else {
            a4.0
        };
        with_terminal(v, a4.1 == 1)
    }

    /// Whether an update rewrites the wire of colour `c` at `(x, y)`: a
    /// thin, remembered, connected wire.
    pub open spec fn is_updated(&self, x: int, y: int, c: int) -> bool {
        &&& 1 <= c < 5
        &&& self.wires(c).contains((x as usize, y as usize))
        &&& self.value_at(x, y, c).connected()
    }

    /// No signal is so strong that an update's comparisons overflow.
    pub open spec fn signals_bounded(&self) -> bool {
        forall|k: int, c: int|
            0 <= k < self.cells().len() && 0 <= c < 5 ==> (#[trigger] self.cells()[k]@[c]).signal()
                <= MAX_UPDATE_SIGNAL
    }

    /// One signal propagation step for every remembered thin wire. All new
    /// values are computed from the grid as it was before the step.
    /// `signals_updated` is set when a wire's signal strength changes.
    pub fn update(&mut self, signals_updated: &mut bool)
        requires
            old(self).wf(),
            old(self).signals_bounded(),
            old(self).w() < i32::MAX,
            old(self).h() < i32::MAX,
        ensures
            final(self).wf(),
            final(self).signals_bounded(),
            final(self).w() == old(self).w(),
            final(self).h() == old(self).h(),
            forall|c: int| 0 <= c < 5 ==> #[trigger] final(self).wires(c) == old(self).wires(c),
            final(self).inputs() == old(self).inputs(),
            final(self).outputs() == old(self).outputs(),
            final(self).cells().len() == old(self).cells().len(),
            forall|x: int, y: int, c: int|
                old(self).in_bounds(x, y) && 0 <= c < 5 ==> #[trigger] final(self).value_at(x, y, c)
                    == if old(self).is_updated(x, y, c) {
                    old(self).updated_wire(x, y, c)
                } else {
                    old(self).value_at(x, y, c)
                },
            *final(signals_updated) == (*old(signals_updated) || exists|x: int, y: int, c: int|
                old(self).in_bounds(x, y) && #[trigger] old(self).is_updated(x, y, c)
                    && old(self).value_at(x, y, c).signal() != old(self).updated_wire(
                    x,
                    y,
                    c,
                ).signal()),
    {
        let ghost g0 = *self;
        let old_grid = WireGrid::clone_from(self);
        let mut color: usize = 0;
        while color < WIRE_COLORS
            invariant
                g0.wf(),
                g0.signals_bounded(),
                g0.w() < i32::MAX,
                g0.h() < i32::MAX,
                old_grid.wf(),
                old_grid.w() == g0.w(),
                old_grid.h() == g0.h(),
                old_grid.cells().len() == g0.cells().len(),
                forall|k: int, c: int|
                    0 <= k < g0.cells().len() && 0 <= c < 5 ==> #[trigger] old_grid.cells()[k]@[c]
                        == g0.snapshot_value(k, c),
                self.wf(),
                self.width == g0.width,
                self.height == g0.height,
                self.connected_wires == g0.connected_wires,
                self.bundle_inputs == g0.bundle_inputs,
                self.bundle_outputs == g0.bundle_outputs,
                self.cells@.len() == g0.cells@.len(),
                color <= 5,
                forall|x: int, y: int, c: int|
                    g0.in_bounds(x, y) && 0 <= c < 5 ==> #[trigger] self.value_at(x, y, c) == if g0.is_updated(x, y, c) && c < color {
                        g0.updated_wire(x, y, c)
                    } else {
                        g0.value_at(x, y, c)
                    },
                *signals_updated == (*old(signals_updated) || exists|x: int, y: int, c: int|
                    g0.in_bounds(x, y) && #[trigger] g0.is_updated(x, y, c) && c < color
                        && g0.value_at(x, y, c).signal() != g0.updated_wire(x, y, c).signal()),
            decreases 5 - color,
        {
            if color != 0 {
                self.update_color(&old_grid, color, signals_updated, Ghost(g0));
            } else {
                assert forall|x: int, y: int, c: int| g0.in_bounds(x, y) && #[trigger] g0.is_updated(x, y, c) implies c >= 1 by {}
            }
            color = color + 1;
        }
        proof {
            assert forall|k: int, c: int|
                0 <= k < self.cells().len() && 0 <= c < 5 implies (#[trigger] self.cells()[k]@[c]).signal()
                    <= MAX_UPDATE_SIGNAL by {
                let xy = crate::grid::lemma_cell_coordinates(self.w(), self.h(), k);
                assert(self.value_at(xy.0, xy.1, c) == self.cells()[k]@[c]);
                if g0.is_updated(xy.0, xy.1, c) {
                    g0.lemma_updated_wire_signal(xy.0, xy.1, c);
                } else {
                    assert(g0.value_at(xy.0, xy.1, c) == g0.cells()[k]@[c]);
                }
            }
        }
    }

    /// The updated value of one remembered wire, computed from the
    /// snapshot `self` of the grid `g0`.
    fn compute_updated(&self, x: usize, y: usize, color: usize, Ghost(g0): Ghost<WireGrid>) -> (r: WireValue)
        requires
            g0.wf(),
            g0.signals_bounded(),
            self.wf(),
            self.w() == g0.w(),
            self.h() == g0.h(),
            self.cells().len() == g0.cells().len(),
            forall|k: int, c: int|
                0 <= k < g0.cells().len() && 0 <= c < 5 ==> #[trigger] self.cells()[k]@[c]
                    == g0.snapshot_value(k, c),
            in_wire_area(g0.w(), g0.h(), (x, y)),
            color < 5,
        ensures
            r == g0.updated_wire(x as int, y as int, color as int),
            r.signal() <= MAX_UPDATE_SIGNAL - 1,
    {
        proof {
            lemma_cell_index_bounds(g0.w(), g0.h(), x as int, y as int);
            g0.lemma_snapshot_bounded(x, y, color as int);
        }
        let own = self.cell(x, y).value[color];
        proof {
            assert(own == self.cells()[cell_index(g0.w(), x as int, y as int)]@[color as int]);
        }
        let nbs = self.neighbours(x, y);
        proof {
            assert forall|i: int| 0 <= i < 4 implies #[trigger] nbs@[i]@[color as int] == g0.snapshot_neighbour(x as int, y as int, i, color as int) by {
                lemma_cell_index_bounds(g0.w(), g0.h(), neighbour_pos(x as int, y as int, i).0, neighbour_pos(x as int, y as int, i).1);
            }
        }
        proof {
            assert(own == g0.snapshot_value(cell_index(g0.w(), x as int, y as int), color as int));
            assert(nbs@[0]@[color as int] == g0.snapshot_neighbour(x as int, y as int, 0, color as int));
            assert(nbs@[1]@[color as int] == g0.snapshot_neighbour(x as int, y as int, 1, color as int));
            assert(nbs@[2]@[color as int] == g0.snapshot_neighbour(x as int, y as int, 2, color as int));
            assert(nbs@[3]@[color as int] == g0.snapshot_neighbour(x as int, y as int, 3, color as int));
        }
        let a = (own.decay(2), 0u8);
        let a = neighbour_step_exec(a, nbs[0].value[color]);
        let a = neighbour_step_exec(a, nbs[1].value[color]);
        let a = neighbour_step_exec(a, nbs[2].value[color]);
        let a = neighbour_step_exec(a, nbs[3].value[color]);
        let (mut new_value, connected_wires) = a;
        if connected_wires > 2 {
            new_value = WireValue::NotConnected;
        }
        new_value.set_terminal(connected_wires == 1);
        new_value
    }

    /// Every value an update reads for the wire at `(x, y)` is bounded.
    proof fn lemma_snapshot_bounded(&self, x: usize, y: usize, c: int)
        requires
            self.wf(),
            self.signals_bounded(),
            in_wire_area(self.w(), self.h(), (x, y)),
            0 <= c < 5,
        ensures
            self.snapshot_value(cell_index(self.w(), x as int, y as int), c).signal() <= MAX_UPDATE_SIGNAL,
            forall|i: int| 0 <= i < 4 ==> (#[trigger] self.snapshot_neighbour(x as int, y as int, i, c)).signal() <= MAX_UPDATE_SIGNAL,
    {
        self.lemma_wf();
        lemma_cell_index_bounds(self.w(), self.h(), x as int, y as int);
        assert forall|i: int| 0 <= i < 4 implies (#[trigger] self.snapshot_neighbour(x as int, y as int, i, c)).signal() <= MAX_UPDATE_SIGNAL by {
            lemma_cell_index_bounds(self.w(), self.h(), neighbour_pos(x as int, y as int, i).0, neighbour_pos(x as int, y as int, i).1);
        }
    }

    /// An updated wire stays within the signal bound.
    proof fn lemma_updated_wire_signal(&self, x: int, y: int, c: int)
        requires
            self.wf(),
            self.signals_bounded(),
            self.in_bounds(x, y),
            self.is_updated(x, y, c),
        ensures
            self.updated_wire(x, y, c).signal() <= MAX_UPDATE_SIGNAL,
    {
        let j = choose|j: int| 0 <= j < self.wires(c).len() && self.wires(c)[j] == (x as usize, y as usize);
        assert(in_wire_area(self.w(), self.h(), self.wires(c)[j]));
        self.lemma_snapshot_bounded(x as usize, y as usize, c);
        let own = self.snapshot_value(cell_index(self.w(), x, y), c);
        let a0 = (decayed(own, 2), 0int);
        lemma_neighbour_step_bounded(a0, self.snapshot_neighbour(x, y, 0, c));
        let a1 = neighbour_step(a0, self.snapshot_neighbour(x, y, 0, c));
        lemma_neighbour_step_bounded(a1, self.snapshot_neighbour(x, y, 1, c));
        let a2 = neighbour_step(a1, self.snapshot_neighbour(x, y, 1, c));
        lemma_neighbour_step_bounded(a2, self.snapshot_neighbour(x, y, 2, c));
        let a3 = neighbour_step(a2, self.snapshot_neighbour(x, y, 2, c));
        lemma_neighbour_step_bounded(a3, self.snapshot_neighbour(x, y, 3, c));
    }

    /// One colour's pass of `update`.
    fn update_color(
        &mut self,
        old_grid: &WireGrid,
        color: usize,
        signals_updated: &mut bool,
        Ghost(g0): Ghost<WireGrid>,
    )
        requires
            g0.wf(),
            g0.signals_bounded(),
            old_grid.wf(),
            old_grid.w() == g0.w(),
            old_grid.h() == g0.h(),
            old_grid.cells().len() == g0.cells().len(),
            forall|k: int, c: int|
                0 <= k < g0.cells().len() && 0 <= c < 5 ==> #[trigger] old_grid.cells()[k]@[c]
                    == g0.snapshot_value(k, c),
            old(self).wf(),
            old(self).width == g0.width,
            old(self).height == g0.height,
            old(self).connected_wires == g0.connected_wires,
            old(self).bundle_inputs == g0.bundle_inputs,
            old(self).bundle_outputs == g0.bundle_outputs,
            old(self).cells@.len() == g0.cells@.len(),
            1 <= color < 5,
            forall|x: int, y: int, c: int|
                g0.in_bounds(x, y) && 0 <= c < 5 ==> #[trigger] old(self).value_at(x, y, c) == if g0.is_updated(x, y, c) && c < color {
                    g0.updated_wire(x, y, c)
                } else {
                    g0.value_at(x, y, c)
                },
        ensures
            final(self).wf(),
            final(self).width == g0.width,
            final(self).height == g0.height,
            final(self).connected_wires == g0.connected_wires,
            final(self).bundle_inputs == g0.bundle_inputs,
            final(self).bundle_outputs == g0.bundle_outputs,
            final(self).cells@.len() == g0.cells@.len(),
            forall|x: int, y: int, c: int|
                g0.in_bounds(x, y) && 0 <= c < 5 ==> #[trigger] final(self).value_at(x, y, c) == if g0.is_updated(x, y, c) && c <= color {
                    g0.updated_wire(x, y, c)
                } else {
                    g0.value_at(x, y, c)
                },
            *final(signals_updated) == (*old(signals_updated) || exists|x: int, y: int|
                g0.in_bounds(x, y) && #[trigger] g0.is_updated(x, y, color as int)
                    && g0.value_at(x, y, color as int).signal() != g0.updated_wire(x, y, color as int).signal()),
    {
        let ghost flag0 = *old(signals_updated);
        let n = self.connected_wires[color].len();
        let mut j: usize = 0;
        while j < n
            invariant
                g0.wf(),
                g0.signals_bounded(),
                old_grid.wf(),
                old_grid.w() == g0.w(),
                old_grid.h() == g0.h(),
                old_grid.cells().len() == g0.cells().len(),
                forall|k: int, c: int|
                    0 <= k < g0.cells().len() && 0 <= c < 5 ==> #[trigger] old_grid.cells()[k]@[c]
                        == g0.snapshot_value(k, c),
                self.wf(),
                self.width == g0.width,
                self.height == g0.height,
                self.connected_wires == g0.connected_wires,
                self.bundle_inputs == g0.bundle_inputs,
                self.bundle_outputs == g0.bundle_outputs,
                self.cells@.len() == g0.cells@.len(),
                1 <= color < 5,
                n == g0.wires(color as int).len(),
                j <= n,
                forall|x: int, y: int, c: int|
                    g0.in_bounds(x, y) && 0 <= c < 5 ==> #[trigger] self.value_at(x, y, c) == if g0.is_updated(x, y, c) && (c < color || (c == color && g0.wires(c).take(j as int).contains((x as usize, y as usize)))) {
                        g0.updated_wire(x, y, c)
                    } else {
                        g0.value_at(x, y, c)
                    },
                *signals_updated == (flag0 || exists|x: int, y: int|
                    g0.in_bounds(x, y) && #[trigger] g0.is_updated(x, y, color as int)
                        && g0.wires(color as int).take(j as int).contains((x as usize, y as usize))
                        && g0.value_at(x, y, color as int).signal() != g0.updated_wire(x, y, color as int).signal()),
            decreases n - j,
        {
            let (x, y) = self.connected_wires[color][j];
            let ghost p = (x, y);
            proof {
                assert(g0.wires(color as int)[j as int] == p);
                assert(in_wire_area(g0.w(), g0.h(), g0.wires(color as int)[j as int]));
                lemma_cell_index_bounds(g0.w(), g0.h(), x as int, y as int);
                assert(lists_cell(g0.wires(color as int), g0.w(), cell_index(g0.w(), x as int, y as int), g0.wires(color as int).len() as int));
                assert(g0.wires(color as int).take(j + 1) =~= g0.wires(color as int).take(j as int).push(p));
                assert(g0.wires(color as int).contains(p));
            }
            let old_value = old_grid.cell(x, y).value[color];
            proof {
                assert(old_value == old_grid.cells()[cell_index(g0.w(), x as int, y as int)]@[color as int]);
                assert(old_value == g0.value_at(x as int, y as int, color as int));
            }
            if old_value.connected() {
                let new_value = old_grid.compute_updated(x, y, color, Ghost(g0));
                let current = self.cell(x, y).value[color];
                proof {
                    assert(current == self.value_at(x as int, y as int, color as int));
                }
                let ghost flag_before = *signals_updated;
                if current.signal() != new_value.signal() {
                    *signals_updated = true;
                }
                let _len = self.cells.len();
                let k = y * self.width + x;
                let ghost before = *self;
                let mut cell = self.cells[k];
                cell.value[color] = new_value;
                proof {
                    assert(cell@ == before.cells()[k as int]@.update(color as int, new_value));
                }
                self.cells[k] = cell;
                proof {
                    let ghost wsj = g0.wires(color as int).take(j as int);
                    assert(g0.is_updated(x as int, y as int, color as int));
                    assert(self.cells() == before.cells().update(k as int, cell));
                    assert forall|q: (usize, usize)| q != p implies (#[trigger] g0.wires(color as int).take(j + 1).contains(q)) == wsj.contains(q) by {
                        if g0.wires(color as int).take(j + 1).contains(q) {
                            let i = choose|i: int| 0 <= i < j + 1 && #[trigger] g0.wires(color as int).take(j + 1)[i] == q;
                            assert(i != j);
                            assert(wsj[i] == q);
                        }
                        if wsj.contains(q) {
                            let i = choose|i: int| 0 <= i < j && #[trigger] wsj[i] == q;
                            assert(g0.wires(color as int).take(j + 1)[i] == q);
                        }
                    }
                    assert(g0.wires(color as int).take(j + 1)[j as int] == p);
                    assert forall|xx: int, yy: int, c: int|
                        g0.in_bounds(xx, yy) && 0 <= c < 5 implies #[trigger] self.value_at(xx, yy, c) == if g0.is_updated(xx, yy, c) && (c < color || (c == color && g0.wires(c).take(j + 1).contains((xx as usize, yy as usize)))) {
                            g0.updated_wire(xx, yy, c)
                        } else {
                            g0.value_at(xx, yy, c)
                        } by {
                        lemma_cell_index_bounds(g0.w(), g0.h(), xx, yy);
                        assert(before.value_at(xx, yy, c) == if g0.is_updated(xx, yy, c) && (c < color || (c == color && wsj.contains((xx as usize, yy as usize)))) {
                            g0.updated_wire(xx, yy, c)
                        } else {
                            g0.value_at(xx, yy, c)
                        });
                        if xx == x && yy == y {
                            assert(g0.wires(color as int).take(j + 1).contains((xx as usize, yy as usize)));
                            if c != color {
                                assert(self.value_at(xx, yy, c) == before.value_at(xx, yy, c));
                            }
                        } else {
                            if cell_index(g0.w(), xx, yy) == cell_index(g0.w(), x as int, y as int) {
                                lemma_cell_index_injective(g0.w(), xx, yy, x as int, y as int);
                            }
                            assert(self.value_at(xx, yy, c) == before.value_at(xx, yy, c));
                            assert((xx as usize, yy as usize) != p);
                        }
                    }
                    let ghost wit = g0.in_bounds(x as int, y as int) && g0.is_updated(x as int, y as int, color as int)
                        && g0.value_at(x as int, y as int, color as int).signal() != g0.updated_wire(x as int, y as int, color as int).signal();
                    if wsj.contains(p) {
                        assert(current == g0.updated_wire(x as int, y as int, color as int));
                    } else {
                        assert(current == g0.value_at(x as int, y as int, color as int));
                    }
                    if exists|xx: int, yy: int|
                        g0.in_bounds(xx, yy) && #[trigger] g0.is_updated(xx, yy, color as int)
                            && g0.wires(color as int).take(j + 1).contains((xx as usize, yy as usize))
                            && g0.value_at(xx, yy, color as int).signal() != g0.updated_wire(xx, yy, color as int).signal() {
                        let (xx, yy) = choose|xx: int, yy: int|
                            g0.in_bounds(xx, yy) && #[trigger] g0.is_updated(xx, yy, color as int)
                                && g0.wires(color as int).take(j + 1).contains((xx as usize, yy as usize))
                                && g0.value_at(xx, yy, color as int).signal() != g0.updated_wire(xx, yy, color as int).signal();
                        if xx == x && yy == y {
                            assert(*signals_updated);
                        } else {
                            assert((xx as usize, yy as usize) != p);
                            assert(wsj.contains((xx as usize, yy as usize)));
                            assert(flag_before);
                        }
                    }
                    if *signals_updated && !flag_before {
                        assert(wit);
                        assert(!wsj.contains(p));
                        assert(g0.is_updated(x as int, y as int, color as int));
                        assert(g0.wires(color as int).take(j + 1).contains((x as usize, y as usize)));
                    }
                }
            } else {
                proof {
                    assert(!g0.is_updated(x as int, y as int, color as int));
                }
            }
            j = j + 1;
        }
        proof {
            assert(g0.wires(color as int).take(n as int) =~= g0.wires(color as int));
        }
    }

    /// Lays wires of one colour over the rectangle spanned by `p` and `q`.
    fn draw_segment(&mut self, color: WireColor, p: (usize, usize), q: (usize, usize))
        requires
            old(self).wf(),
            old(self).w() >= 2,
            old(self).in_bounds(p.0 as int, p.1 as int),
            old(self).in_bounds(q.0 as int, q.1 as int),
            color == WireColor::Bundle ==> interior_point(old(self).w(), old(self).h(), p)
                && interior_point(old(self).w(), old(self).h(), q),
        ensures
            final(self).wf(),
            final(self).w() == old(self).w(),
            final(self).h() == old(self).h(),
            forall|x: int, y: int, c: int|
                old(self).in_bounds(x, y) && 0 <= c < 5 && c != color.idx() ==> #[trigger] final(self).value_at(x, y, c)
                    == old(self).value_at(x, y, c),
            color != WireColor::Bundle ==> forall|x: int, y: int|
                old(self).in_bounds(x, y) ==> #[trigger] final(self).value_at(x, y, color.idx())
                    == if on_segment(p, q, x, y) {
                    WireValue::NoSignal { terminal: false }
                } else {
                    old(self).value_at(x, y, color.idx())
                },
            color == WireColor::Bundle ==> forall|x: int, y: int|
                old(self).in_bounds(x, y) ==> (#[trigger] final(self).value_at(x, y, 0)).connected()
                    ==> (on_segment(p, q, x, y) || old(self).value_at(x, y, 0).connected()),
            exists|states: Seq<WireGrid>|
                wires_laid(states, segment_cells(p, q, color)) && states[0] == *old(self) && states.last()
                    == *final(self),
    {
        let (x1, x2) = if p.0 <= q.0 { (p.0, q.0) } else { (q.0, p.0) };
        let (y1, y2) = if p.1 <= q.1 { (p.1, q.1) } else { (q.1, p.1) };
        let ghost start = *self;
        let ci = color.index();
        let ghost mut states: Seq<WireGrid> = seq![start];
        let mut y = y1;
        while y <= y2
            invariant
                start.wf(),
                self.wf(),
                self.w() == start.w(),
                self.h() == start.h(),
                start.w() >= 2,
                ci == color.idx(),
                x1 == min_usize(p.0, q.0),
                x2 == max_usize(p.0, q.0),
                y1 == min_usize(p.1, q.1),
                y2 == max_usize(p.1, q.1),
                x2 < start.w(),
                y2 < start.h(),
                y1 <= y <= y2 + 1,
                wires_laid(states, rect_cells(x1 as int, x2 as int, y1 as int, y - y1, color)),
                states[0] == start,
                states.last() == *self,
                color == WireColor::Bundle ==> interior_point(start.w(), start.h(), p)
                    && interior_point(start.w(), start.h(), q),
                forall|xx: int, yy: int, c: int|
                    start.in_bounds(xx, yy) && 0 <= c < 5 && c != ci ==> #[trigger] self.value_at(xx, yy, c)
                        == start.value_at(xx, yy, c),
                color != WireColor::Bundle ==> forall|xx: int, yy: int|
                    start.in_bounds(xx, yy) ==> #[trigger] self.value_at(xx, yy, ci as int)
                        == if x1 <= xx <= x2 && y1 <= yy < y {
                        WireValue::NoSignal { terminal: false }
                    } else {
                        start.value_at(xx, yy, ci as int)
                    },
                color == WireColor::Bundle ==> forall|xx: int, yy: int|
                    start.in_bounds(xx, yy) ==> (#[trigger] self.value_at(xx, yy, 0)).connected()
                        ==> ((x1 <= xx <= x2 && y1 <= yy < y) || start.value_at(xx, yy, 0).connected()),
            decreases y2 + 1 - y,
        {
            let mut x = x1;
            while x <= x2
                invariant
                    start.wf(),
                    self.wf(),
                    self.w() == start.w(),
                    self.h() == start.h(),
                    start.w() >= 2,
                    ci == color.idx(),
                    x1 == min_usize(p.0, q.0),
                    x2 == max_usize(p.0, q.0),
                    y1 == min_usize(p.1, q.1),
                    y2 == max_usize(p.1, q.1),
                    x2 < start.w(),
                    y2 < start.h(),
                    y1 <= y <= y2,
                    x1 <= x <= x2 + 1,
                    wires_laid(
                        states,
                        rect_cells(x1 as int, x2 as int, y1 as int, y - y1, color) + row_cells(x1 as int, x - x1, y as int, color),
                    ),
                    states[0] == start,
                    states.last() == *self,
                    color == WireColor::Bundle ==> interior_point(start.w(), start.h(), p)
                        && interior_point(start.w(), start.h(), q),
                    forall|xx: int, yy: int, c: int|
                        start.in_bounds(xx, yy) && 0 <= c < 5 && c != ci ==> #[trigger] self.value_at(xx, yy, c)
                            == start.value_at(xx, yy, c),
                    color != WireColor::Bundle ==> forall|xx: int, yy: int|
                        start.in_bounds(xx, yy) ==> #[trigger] self.value_at(xx, yy, ci as int)
                            == if x1 <= xx <= x2 && (y1 <= yy < y || (yy == y && xx < x)) {
                            WireValue::NoSignal { terminal: false }
                        } else {
                            start.value_at(xx, yy, ci as int)
                        },
                    color == WireColor::Bundle ==> forall|xx: int, yy: int|
                        start.in_bounds(xx, yy) ==> (#[trigger] self.value_at(xx, yy, 0)).connected()
                            ==> ((x1 <= xx <= x2 && (y1 <= yy < y || (yy == y && xx < x))) || start.value_at(xx, yy, 0).connected()),
                decreases x2 + 1 - x,
            {
                let ghost before = *self;
                self.make_wire(x, y, color);
                proof {
                    let done = rect_cells(x1 as int, x2 as int, y1 as int, y - y1, color) + row_cells(x1 as int, x - x1, y as int, color);
                    lemma_wires_laid_push(states, done, *self, (x, y, color));
                    assert(done.push((x, y, color)) =~= rect_cells(x1 as int, x2 as int, y1 as int, y - y1, color) + row_cells(
                        x1 as int,
                        x + 1 - x1,
                        y as int,
                        color,
                    ));
                    states = states.push(*self);
                    lemma_cell_index_bounds(self.w(), self.h(), x as int, y as int);
                    assert forall|xx: int, yy: int| start.in_bounds(xx, yy) && (xx != x || yy != y) implies
                        #[trigger] self.cells()[cell_index(self.w(), xx, yy)] == before.cells()[cell_index(self.w(), xx, yy)]
                        || color == WireColor::Bundle by {
                        lemma_cell_index_bounds(self.w(), self.h(), xx, yy);
                        if cell_index(self.w(), xx, yy) == cell_index(self.w(), x as int, y as int) {
                            lemma_cell_index_injective(self.w(), xx, yy, x as int, y as int);
                        }
                    }
                    if color == WireColor::Bundle {
                        assert forall|xx: int, yy: int, c: int|
                            start.in_bounds(xx, yy) && 0 <= c < 5 && c != 0 implies #[trigger] self.value_at(xx, yy, c)
                                == before.value_at(xx, yy, c) by {
                            lemma_cell_index_bounds(self.w(), self.h(), xx, yy);
                            let kk = cell_index(self.w(), xx, yy);
                            if let Some(id) = before.joined_bundle(x as int, y as int) {
                                let merged = before.merged_cells(before.bundles_around(x as int, y as int), id);
                                assert(merged[kk]@[c] == before.cells()[kk]@[c]);
                            }
                        }
                        assert forall|xx: int, yy: int|
                            start.in_bounds(xx, yy) && (#[trigger] self.value_at(xx, yy, 0)).connected() implies
                                ((xx == x && yy == y) || before.value_at(xx, yy, 0).connected()) by {
                            lemma_cell_index_bounds(self.w(), self.h(), xx, yy);
                            let kk = cell_index(self.w(), xx, yy);
                            if let Some(id) = before.joined_bundle(x as int, y as int) {
                                let merged = before.merged_cells(before.bundles_around(x as int, y as int), id);
                                if !(xx == x && yy == y) {
                                    if kk == cell_index(self.w(), x as int, y as int) {
                                        lemma_cell_index_injective(self.w(), xx, yy, x as int, y as int);
                                    }
                                    assert(merged[kk]@[0].connected() == before.cells()[kk]@[0].connected());
                                }
                            }
                        }
                    } else {
                        assert forall|xx: int, yy: int, c: int|
                            start.in_bounds(xx, yy) && 0 <= c < 5 implies #[trigger] self.value_at(xx, yy, c)
                                == if xx == x && yy == y && c == ci {
                                WireValue::NoSignal { terminal: false }
                            } else {
                                before.value_at(xx, yy, c)
                            } by {
                            lemma_cell_index_bounds(self.w(), self.h(), xx, yy);
                            if !(xx == x && yy == y) {
                                assert(self.cells()[cell_index(self.w(), xx, yy)] == before.cells()[cell_index(self.w(), xx, yy)]);
                            }
                        }
                    }
                }
                x = x + 1;
            }
            proof {
                assert(rect_cells(x1 as int, x2 as int, y1 as int, y + 1 - y1, color) =~= rect_cells(
                    x1 as int,
                    x2 as int,
                    y1 as int,
                    y - y1,
                    color,
                ) + row_cells(x1 as int, x - x1, y as int, color));
            }
            y = y + 1;
        }
        assert(wires_laid(states, segment_cells(p, q, color)));
    }

    /// A grid of the given size with the wires that `wire_points` describe:
    /// each wire is a list of points, and a wire is laid over the rectangle
    /// spanned by every two consecutive points. The grid is what laying a
    /// wire in each of these cells in turn (`laid_cells`, `wire_made`) makes
    /// of a new grid; in particular a thin-wire cell holds a wire exactly
    /// where one is drawn, and a bundle cell only where one is drawn.
    pub fn from_wire_points(width: usize, height: usize, wire_points: &Vec<WirePoints>) -> (g: WireGrid)
        requires
            width * height <= usize::MAX,
            width >= 2,
            forall|i: int, j: int|
                0 <= i < wire_points@.len() && 0 <= j < wire_points@[i].1@.len() ==> {
                    let pt = #[trigger] wire_points@[i].1@[j];
                    &&& pt.0 < width && pt.1 < height
                    &&& wire_points@[i].0 == WireColor::Bundle ==> interior_point(width as int, height as int, pt)
                },
        ensures
            g.wf(),
            g.w() == width,
            g.h() == height,
            forall|x: int, y: int, c: int|
                g.in_bounds(x, y) && 1 <= c < 5 ==> #[trigger] g.value_at(x, y, c) == if drawn(wire_points@, c, x, y) {
                    WireValue::NoSignal { terminal: false }
                } else {
                    WireValue::NotConnected
                },
            forall|x: int, y: int|
                g.in_bounds(x, y) && (#[trigger] g.value_at(x, y, 0)).connected() ==> drawn(wire_points@, 0, x, y),
            exists|states: Seq<WireGrid>|
                wires_laid(states, laid_cells(wire_points@, wire_points@.len() as int)) && is_new_grid(
                    states[0],
                    width as int,
                    height as int,
                ) && states.last() == g,
    {
        let mut wire_grid = WireGrid::new(width, height);
        let ghost fresh = wire_grid;
        let ghost mut states: Seq<WireGrid> = seq![wire_grid];
        proof {
            assert forall|x: int, y: int, c: int| wire_grid.in_bounds(x, y) && 0 <= c < 5 implies #[trigger] wire_grid.value_at(x, y, c) == WireValue::NotConnected by {
                lemma_cell_index_bounds(width as int, height as int, x, y);
            }
        }
        let mut i: usize = 0;
        while i < wire_points.len()
            invariant
                wire_grid.wf(),
                wire_grid.w() == width,
                wire_grid.h() == height,
                width >= 2,
                i <= wire_points@.len(),
                wires_laid(states, laid_cells(wire_points@, i as int)),
                states[0] == fresh,
                states.last() == wire_grid,
                forall|i: int, j: int|
                    0 <= i < wire_points@.len() && 0 <= j < wire_points@[i].1@.len() ==> {
                        let pt = #[trigger] wire_points@[i].1@[j];
                        &&& pt.0 < width && pt.1 < height
                        &&& wire_points@[i].0 == WireColor::Bundle ==> interior_point(width as int, height as int, pt)
                    },
                forall|x: int, y: int, c: int|
                    wire_grid.in_bounds(x, y) && 1 <= c < 5 ==> #[trigger] wire_grid.value_at(x, y, c) == if drawn_upto(wire_points@, c, x, y, i as int) {
                        WireValue::NoSignal { terminal: false }
                    } else {
                        WireValue::NotConnected
                    },
                forall|x: int, y: int|
                    wire_grid.in_bounds(x, y) && (#[trigger] wire_grid.value_at(x, y, 0)).connected() ==> drawn_upto(wire_points@, 0, x, y, i as int),
            decreases wire_points@.len() - i,
        {
            let color = wire_points[i].0;
            let points = &wire_points[i].1;
            let mut j: usize = 0;
            while points.len() > 0 && j < points.len() - 1
                invariant
                    wire_grid.wf(),
                    wire_grid.w() == width,
                    wire_grid.h() == height,
                    width >= 2,
                    i < wire_points@.len(),
                    color == wire_points@[i as int].0,
                    points@ == wire_points@[i as int].1@,
                    j <= points@.len(),
                    j <= segment_count(points@),
                    wires_laid(states, laid_cells(wire_points@, i as int) + wire_cells(points@, color, j as int)),
                    states[0] == fresh,
                    states.last() == wire_grid,
                    forall|i: int, j: int|
                        0 <= i < wire_points@.len() && 0 <= j < wire_points@[i].1@.len() ==> {
                            let pt = #[trigger] wire_points@[i].1@[j];
                            &&& pt.0 < width && pt.1 < height
                            &&& wire_points@[i].0 == WireColor::Bundle ==> interior_point(width as int, height as int, pt)
                        },
                    forall|x: int, y: int, c: int|
                        wire_grid.in_bounds(x, y) && 1 <= c < 5 ==> #[trigger] wire_grid.value_at(x, y, c) == if drawn_upto(wire_points@, c, x, y, i as int)
                            || (c == color.idx() && drawn_in(points@, x, y, j as int)) {
                            WireValue::NoSignal { terminal: false }
                        } else {
                            WireValue::NotConnected
                        },
                    forall|x: int, y: int|
                        wire_grid.in_bounds(x, y) && (#[trigger] wire_grid.value_at(x, y, 0)).connected() ==> drawn_upto(wire_points@, 0, x, y, i as int)
                            || (color == WireColor::Bundle && drawn_in(points@, x, y, j as int)),
                decreases points@.len() - j,
            {
                let p = points[j];
                let q = points[j + 1];
                proof {
                    assert(wire_points@[i as int].1@[j as int] == p);
                    assert(wire_points@[i as int].1@[j + 1] == q);
                }
                let ghost before = wire_grid;
                wire_grid.draw_segment(color, p, q);
                proof {
                    let done = laid_cells(wire_points@, i as int) + wire_cells(points@, color, j as int);
                    let seg = choose|seg: Seq<WireGrid>|
                        wires_laid(seg, segment_cells(p, q, color)) && seg[0] == before && seg.last() == wire_grid;
                    lemma_wires_laid_concat(states, done, seg, segment_cells(p, q, color));
                    assert(done + segment_cells(p, q, color) =~= laid_cells(wire_points@, i as int) + wire_cells(
                        points@,
                        color,
                        j + 1,
                    ));
                    states = states + seg.drop_first();
                    assert forall|x: int, y: int| #[trigger] drawn_in(points@, x, y, j + 1) == (drawn_in(points@, x, y, j as int) || on_segment(p, q, x, y)) by {
                        if drawn_in(points@, x, y, j + 1) {
                            let jj = choose|jj: int| 0 <= jj < j + 1 && jj + 1 < points@.len() && on_segment(#[trigger] points@[jj], points@[jj + 1], x, y);
                            if jj != j {
                                assert(drawn_in(points@, x, y, j as int));
                            }
                        }
                    }
                }
                j = j + 1;
            }
            proof {
                assert(j == segment_count(points@));
                assert(laid_cells(wire_points@, i + 1) =~= laid_cells(wire_points@, i as int) + wire_cells(
                    points@,
                    color,
                    j as int,
                ));
                assert forall|x: int, y: int, c: int| #[trigger] drawn_upto(wire_points@, c, x, y, i + 1) == (drawn_upto(wire_points@, c, x, y, i as int)
                    || (c == color.idx() && drawn_in(points@, x, y, j as int))) by {
                    if drawn_upto(wire_points@, c, x, y, i + 1) {
                        let ii = choose|ii: int| 0 <= ii < i + 1 && (#[trigger] wire_points@[ii]).0.idx() == c && drawn_in(wire_points@[ii].1@, x, y, wire_points@[ii].1@.len() as int);
                        if ii == i {
                            let jj = choose|jj: int| 0 <= jj < points@.len() && jj + 1 < points@.len() && on_segment(#[trigger] points@[jj], points@[jj + 1], x, y);
                            assert(drawn_in(points@, x, y, j as int));
                        }
                    }
                    if c == color.idx() && drawn_in(points@, x, y, j as int) {
                        let jj = choose|jj: int| 0 <= jj < j && jj + 1 < points@.len() && on_segment(#[trigger] points@[jj], points@[jj + 1], x, y);
                        assert(drawn_in(wire_points@[i as int].1@, x, y, wire_points@[i as int].1@.len() as int));
                    }
                }
                assert(color.idx() == 0 <==> color == WireColor::Bundle);
            }
            i = i + 1;
        }
        proof {
            assert forall|x: int, y: int, c: int| #[trigger] drawn(wire_points@, c, x, y) == drawn_upto(wire_points@, c, x, y, wire_points@.len() as int) by {}
            assert(is_new_grid(states[0], width as int, height as int));
        }
        wire_grid
    }

    /// One step of the scan that groups wire cells into sets, at cell
    /// `(x, y)` of colour `color`. A wire cell joins the set of its left or
    /// upper neighbour when it extends one of that set's ends (the set is
    /// turned round to end there); with both neighbours in sets, the upper
    /// set is merged into the left one behind the cell, reversed, and left
    /// empty. Otherwise (a fork, or a neighbour whose set was emptied by a
    /// merge) the cell starts a new set. Cells without a wire change nothing.
    pub open spec fn scan_cell(&self, st: SetScan, color: WireColor, x: int, y: int) -> SetScan {
        let w = self.w();
        let k = cell_index(w, x, y);
        let p = (x as usize, y as usize);
        if !self.value_at(x, y, color.idx()).connected() {
            st
        } else {
            let left = if x > 0 {
                set_of(st.0, k - 1)
            } else {
                None
            };
            let top = if y > 0 {
                set_of(st.0, k - w)
            } else {
                None
            };
            match (left, top) {
                (None, None) => new_set(st, k, p, color),
                (None, Some(t)) => {
                    let target = (x as usize, (y - 1) as usize);
                    let set = turned(st.1[t as int], target);
                    let st2 = (st.0, st.1.update(t as int, set), st.2);
                    if ends_at(set, target) {
                        join_set(st2, k, p, t)
                    } else {
                        new_set(st2, k, p, color)
                    }
                },
                (Some(l), None) => {
                    let target = ((x - 1) as usize, y as usize);
                    let set = turned(st.1[l as int], target);
                    let st2 = (st.0, st.1.update(l as int, set), st.2);
                    if ends_at(set, target) {
                        join_set(st2, k, p, l)
                    } else {
                        new_set(st2, k, p, color)
                    }
                },
                (Some(l), Some(t)) => {
                    let target = (x as usize, (y - 1) as usize);
                    let map2 = repointed(st.0, w, st.1[t as int], l);
                    let set = turned(st.1[t as int], target);
                    let sets2 = st.1.update(t as int, set);
                    if ends_at(set, target) {
                        let sets3 = sets2.update(l as int, sets2[l as int].push(p));
                        let sets4 = sets3.update(l as int, sets3[l as int] + sets3[t as int].reverse());
                        (map2.insert(k as usize, l), sets4.update(t as int, Seq::empty()), st.2)
                    } else {
                        new_set((map2, sets2, st.2), k, p, color)
                    }
                },
            }
        }
    }

    /// The scan over the first `x` cells of row `y`.
    pub open spec fn scan_row(&self, st: SetScan, color: WireColor, y: int, x: int) -> SetScan
        decreases x,
    {
        if x <= 0 {
            st
        } else {
            self.scan_cell(self.scan_row(st, color, y, x - 1), color, x - 1, y)
        }
    }

    /// The scan over the first `y` rows.
    pub open spec fn scan_rows(&self, st: SetScan, color: WireColor, y: int) -> SetScan
        decreases y,
    {
        if y <= 0 {
            st
        } else {
            self.scan_row(self.scan_rows(st, color, y - 1), color, y - 1, self.w())
        }
    }

    /// The scan over the first `ci` colours, each starting with no cell in
    /// a set.
    pub open spec fn scan_colors(&self, ci: int) -> SetScan
        decreases ci,
    {
        if ci <= 0 {
            (Map::empty(), Seq::empty(), Seq::empty())
        } else {
            let st = self.scan_colors(ci - 1);
            self.scan_rows(
                (Map::empty(), st.1, st.2),
                WireColor::from_idx(ci - 1),
                self.h(),
            )
        }
    }

    /// The wire sets: the non-empty sets of the scan over all colours, with
    /// their colours, in the order in which they were started.
    pub open spec fn spec_wire_sets(&self) -> Seq<(WireColor, Seq<(usize, usize)>)> {
        let st = self.scan_colors(5);
        kept_sets(st.1, st.2, st.1.len() as int)
    }

    /// Whether `p` is a cell of the grid with a connected wire of colour `c`.
    pub open spec fn is_wire_cell(&self, p: (usize, usize), c: WireColor) -> bool {
        &&& self.in_bounds(p.0 as int, p.1 as int)
        &&& self.value_at(p.0 as int, p.1 as int, c.idx()).connected()
    }

    /// Every cell of every set is a wire cell of the set's colour.
    spec fn sets_sound(&self, colors: Seq<WireColor>, sets: Seq<Vec<(usize, usize)>>) -> bool {
        &&& colors.len() == sets.len()
        &&& forall|s: int, i: int|
            0 <= s < sets.len() && 0 <= i < sets[s]@.len() ==> self.is_wire_cell(
                #[trigger] sets[s]@[i],
                colors[s],
            )
    }

    /// Appends the cells of `v` to set `s`.
    fn extend_set(&self, sets: &mut Vec<Vec<(usize, usize)>>, s: usize, v: &Vec<(usize, usize)>, Ghost(colors): Ghost<Seq<WireColor>>)
        requires
            s < old(sets)@.len(),
            self.sets_sound(colors, old(sets)@),
            forall|i: int| 0 <= i < v@.len() ==> self.is_wire_cell(#[trigger] v@[i], colors[s as int]),
        ensures
            other_sets_kept(old(sets)@, final(sets)@, s as int),
            final(sets)@[s as int]@ == old(sets)@[s as int]@ + v@,
            self.sets_sound(colors, final(sets)@),
    {
        let mut i: usize = 0;
        while i < v.len()
            invariant
                s < sets@.len(),
                i <= v@.len(),
                other_sets_kept(old(sets)@, sets@, s as int),
                sets@[s as int]@ == old(sets)@[s as int]@ + v@.take(i as int),
                self.sets_sound(colors, sets@),
                forall|i: int| 0 <= i < v@.len() ==> self.is_wire_cell(#[trigger] v@[i], colors[s as int]),
            decreases v@.len() - i,
        {
            set_push(sets, s, v[i]);
            proof {
                assert(old(sets)@[s as int]@ + v@.take(i + 1) =~= (old(sets)@[s as int]@ + v@.take(i as int)).push(v@[i as int]));
                assert forall|ss: int, j: int| 0 <= ss < sets@.len() && 0 <= j < sets@[ss]@.len() implies self.is_wire_cell(#[trigger] sets@[ss]@[j], colors[ss]) by {
                    if ss == s && j == sets@[ss]@.len() - 1 {
                        assert(sets@[ss]@[j] == v@[i as int]);
                    }
                }
            }
            i = i + 1;
        }
        assert(v@.take(v@.len() as int) =~= v@);
    }

    /// Every set that the map points to has the colour being scanned.
    spec fn map_sound(map: Map<usize, usize>, sets: Seq<Vec<(usize, usize)>>, colors: Seq<WireColor>, color: WireColor) -> bool {
        forall|kk: usize| #[trigger] map.contains_key(kk) ==> map[kk] < sets.len() && colors[map[kk] as int] == color
    }

    /// One step of the scan (see `scan_cell`) at cell `(x, y)`.
    fn scan_wire_cell(
        &self,
        map: &mut BTreeMap<usize, usize>,
        sets: &mut Vec<Vec<(usize, usize)>>,
        colors: &mut Vec<WireColor>,
        color: WireColor,
        x: usize,
        y: usize,
    )
        requires
            self.wf(),
            self.in_bounds(x as int, y as int),
            self.sets_sound(old(colors)@, old(sets)@),
            Self::map_sound(old(map)@, old(sets)@, old(colors)@, color),
        ensures
            self.sets_sound(final(colors)@, final(sets)@),
            Self::map_sound(final(map)@, final(sets)@, final(colors)@, color),
            (final(map)@, set_views(final(sets)@), final(colors)@) == self.scan_cell(
                (old(map)@, set_views(old(sets)@), old(colors)@),
                color,
                x as int,
                y as int,
            ),
    {
        proof {
            lemma_keys_ordered();
        }
        let ghost st0: SetScan = (map@, set_views(sets@), colors@);
        let ghost expected = self.scan_cell(st0, color, x as int, y as int);
        let ghost p = (x, y);
        let width = self.width;
        let height = self.height;
        let n = self.cells.len();
        let ci = color.index();
        proof {
            self.lemma_wf();
            lemma_cell_index_bounds(width as int, height as int, x as int, y as int);
        }
        let k = y * width + x;
        if !self.cells[k].value[ci].connected() {
            return;
        }
        proof {
            assert(self.is_wire_cell(p, color));
        }
        let left = if x > 0 {
            map_get(map, k - 1)
        } else {
            None
        };
        let top = if y > 0 {
            proof {
                lemma_cell_index_bounds(width as int, height as int, x as int, y - 1);
                assert((y - 1) * width + x == y * width + x - width) by (nonlinear_arith);
            }
            map_get(map, k - width)
        } else {
            None
        };
        match (left, top) {
            (None, None) => {
                sets.push(Vec::new());
                colors.push(color);
                let s = sets.len() - 1;
                let ghost pushed = sets@;
                map.insert(k, s);
                set_push(sets, s, (x, y));
                proof {
                    lemma_set_views_kept(pushed, sets@, s as int);
                    assert(set_views(pushed) =~= st0.1.push(Seq::empty()));
                    assert(set_views(sets@) =~= expected.1);
                    assert(map@ =~= expected.0);
                    assert(colors@ =~= expected.2);
                }
            },
            (None, Some(top_set)) => {
                self.continue_set(map, sets, colors, color, x, y, top_set, (x, y - 1), Ghost(st0));
            },
            (Some(left_set), None) => {
                self.continue_set(map, sets, colors, color, x, y, left_set, (x - 1, y), Ghost(st0));
            },
            (Some(left_set), Some(top_set)) => {
                self.merge_sets(map, sets, colors, color, x, y, left_set, top_set, Ghost(st0));
            },
        }
    }

    /// The cell at `(x, y)` continues set `s` if that set ends (or, turned
    /// round, ends) at `target`; otherwise it starts a new set.
    fn continue_set(
        &self,
        map: &mut BTreeMap<usize, usize>,
        sets: &mut Vec<Vec<(usize, usize)>>,
        colors: &mut Vec<WireColor>,
        color: WireColor,
        x: usize,
        y: usize,
        s: usize,
        target: (usize, usize),
        Ghost(st0): Ghost<SetScan>,
    )
        requires
            self.wf(),
            self.in_bounds(x as int, y as int),
            self.is_wire_cell((x, y), color),
            self.sets_sound(old(colors)@, old(sets)@),
            Self::map_sound(old(map)@, old(sets)@, old(colors)@, color),
            st0 == (old(map)@, set_views(old(sets)@), old(colors)@),
            s < old(sets)@.len(),
            old(colors)@[s as int] == color,
        ensures
            self.sets_sound(final(colors)@, final(sets)@),
            Self::map_sound(final(map)@, final(sets)@, final(colors)@, color),
            ({
                let set = turned(st0.1[s as int], target);
                let st2 = (st0.0, st0.1.update(s as int, set), st0.2);
                let k = cell_index(self.w(), x as int, y as int);
                (final(map)@, set_views(final(sets)@), final(colors)@) == if ends_at(set, target) {
                    join_set(st2, k, (x, y), s)
                } else {
                    new_set(st2, k, (x, y), color)
                }
            }),
    {
        proof {
            lemma_keys_ordered();
        }
        let width = self.width;
        let height = self.height;
        let n = self.cells.len();
        proof {
            self.lemma_wf();
            lemma_cell_index_bounds(width as int, height as int, x as int, y as int);
        }
        let k = y * width + x;
        let ghost set = turned(st0.1[s as int], target);
        let ghost st2: SetScan = (st0.0, st0.1.update(s as int, set), st0.2);
        let last = set_last(sets, s);
        if !matches_cell(last, target) {
            let rev = reversed_set(sets, s);
            proof {
                assert forall|i: int| 0 <= i < rev@.len() implies self.is_wire_cell(#[trigger] rev@[i], colors@[s as int]) by {
                    assert(rev@[i] == sets@[s as int]@[sets@[s as int]@.len() - 1 - i]);
                }
            }
            let ghost before = sets@;
            set_replace(sets, s, rev);
            proof {
                lemma_set_views_kept(before, sets@, s as int);
            }
        } else {
            proof {
                assert(set_views(sets@) =~= st2.1);
            }
        }
        assert(set_views(sets@) =~= st2.1);
        let last = set_last(sets, s);
        let ghost turned_sets = sets@;
        if !matches_cell(last, target) {
            sets.push(Vec::new());
            colors.push(color);
            let t = sets.len() - 1;
            let ghost pushed = sets@;
            map.insert(k, t);
            set_push(sets, t, (x, y));
            proof {
                lemma_set_views_kept(pushed, sets@, t as int);
                assert(set_views(pushed) =~= st2.1.push(Seq::empty()));
                assert(set_views(sets@) =~= new_set(st2, k as int, (x, y), color).1);
                assert(map@ =~= new_set(st2, k as int, (x, y), color).0);
            }
        } else {
            map.insert(k, s);
            set_push(sets, s, (x, y));
            proof {
                lemma_set_views_kept(turned_sets, sets@, s as int);
                assert(set_views(sets@) =~= join_set(st2, k as int, (x, y), s).1);
                assert(map@ =~= join_set(st2, k as int, (x, y), s).0);
            }
        }
    }

    /// The cell at `(x, y)` has a left set `l` and an upper set `t`: the
    /// upper set's cells point to the left set; if the upper set, turned,
    /// ends above the cell, the cell and then the reversed upper set are
    /// appended to the left set and the upper set is emptied; otherwise the
    /// cell starts a new set.
    fn merge_sets(
        &self,
        map: &mut BTreeMap<usize, usize>,
        sets: &mut Vec<Vec<(usize, usize)>>,
        colors: &mut Vec<WireColor>,
        color: WireColor,
        x: usize,
        y: usize,
        l: usize,
        t: usize,
        Ghost(st0): Ghost<SetScan>,
    )
        requires
            self.wf(),
            self.in_bounds(x as int, y as int),
            y > 0,
            self.is_wire_cell((x, y), color),
            self.sets_sound(old(colors)@, old(sets)@),
            Self::map_sound(old(map)@, old(sets)@, old(colors)@, color),
            st0 == (old(map)@, set_views(old(sets)@), old(colors)@),
            l < old(sets)@.len(),
            t < old(sets)@.len(),
            old(colors)@[l as int] == color,
            old(colors)@[t as int] == color,
        ensures
            self.sets_sound(final(colors)@, final(sets)@),
            Self::map_sound(final(map)@, final(sets)@, final(colors)@, color),
            ({
                let w = self.w();
                let k = cell_index(w, x as int, y as int);
                let p = (x, y);
                let target = (x, (y - 1) as usize);
                let map2 = repointed(st0.0, w, st0.1[t as int], l);
                let set = turned(st0.1[t as int], target);
                let sets2 = st0.1.update(t as int, set);
                (final(map)@, set_views(final(sets)@), final(colors)@) == if ends_at(set, target) {
                    let sets3 = sets2.update(l as int, sets2[l as int].push(p));
                    let sets4 = sets3.update(l as int, sets3[l as int] + sets3[t as int].reverse());
                    (map2.insert(k as usize, l), sets4.update(t as int, Seq::empty()), st0.2)
                } else {
                    new_set((map2, sets2, st0.2), k, p, color)
                }
            }),
    {
        proof {
            lemma_keys_ordered();
        }
        let width = self.width;
        let height = self.height;
        let n = self.cells.len();
        proof {
            self.lemma_wf();
            lemma_cell_index_bounds(width as int, height as int, x as int, y as int);
        }
        let k = y * width + x;
        let ghost cells = sets@[t as int]@;
        // Point the upper set's cells to the left set.
        let m = sets[t].len();
        let mut i: usize = 0;
        while i < m
            invariant
                self.wf(),
                i <= m,
                t < sets@.len(),
                l < sets@.len(),
                width == self.w(),
                height == self.h(),
                n == self.cells().len(),
                m == cells.len(),
                cells == sets@[t as int]@,
                sets@ == old(sets)@,
                colors@ == old(colors)@,
                colors@[l as int] == color,
                self.sets_sound(colors@, sets@),
                map@ == repointed(old(map)@, width as int, cells.take(i as int), l),
                Self::map_sound(map@, sets@, colors@, color),
            decreases m - i,
        {
            let (ox, oy) = sets[t][i];
            proof {
                assert(self.is_wire_cell(cells[i as int], colors@[t as int]));
                lemma_cell_index_bounds(width as int, height as int, ox as int, oy as int);
                assert(cells.take(i + 1).drop_last() =~= cells.take(i as int));
            }
            map.insert(oy * width + ox, l);
            i = i + 1;
        }
        proof {
            assert(cells.take(m as int) =~= cells);
        }
        let ghost map2 = map@;
        let target = (x, y - 1);
        let ghost set = turned(st0.1[t as int], target);
        let ghost sets2 = st0.1.update(t as int, set);
        let last = set_last(sets, t);
        if !matches_cell(last, target) {
            let rev = reversed_set(sets, t);
            proof {
                assert forall|i: int| 0 <= i < rev@.len() implies self.is_wire_cell(#[trigger] rev@[i], colors@[t as int]) by {
                    assert(rev@[i] == sets@[t as int]@[sets@[t as int]@.len() - 1 - i]);
                }
            }
            let ghost before = sets@;
            set_replace(sets, t, rev);
            proof {
                lemma_set_views_kept(before, sets@, t as int);
            }
        }
        assert(set_views(sets@) =~= sets2);
        let last = set_last(sets, t);
        if !matches_cell(last, target) {
            sets.push(Vec::new());
            colors.push(color);
            let s = sets.len() - 1;
            let ghost pushed = sets@;
            map.insert(k, s);
            set_push(sets, s, (x, y));
            proof {
                lemma_set_views_kept(pushed, sets@, s as int);
                assert(set_views(pushed) =~= sets2.push(Seq::empty()));
                assert(set_views(sets@) =~= new_set((map2, sets2, st0.2), k as int, (x, y), color).1);
                assert(map@ =~= new_set((map2, sets2, st0.2), k as int, (x, y), color).0);
            }
        } else {
            map.insert(k, l);
            let ghost turned_sets = sets@;
            set_push(sets, l, (x, y));
            let ghost sets3 = set_views(sets@);
            proof {
                lemma_set_views_kept(turned_sets, sets@, l as int);
                assert(sets3 =~= sets2.update(l as int, sets2[l as int].push((x, y))));
            }
            let rev = reversed_set(sets, t);
            proof {
                assert forall|i: int| 0 <= i < rev@.len() implies self.is_wire_cell(#[trigger] rev@[i], colors@[l as int]) by {
                    assert(rev@[i] == sets@[t as int]@[sets@[t as int]@.len() - 1 - i]);
                }
            }
            let ghost before_extend = sets@;
            self.extend_set(sets, l, &rev, Ghost(colors@));
            proof {
                lemma_set_views_kept(before_extend, sets@, l as int);
            }
            let ghost before_clear = sets@;
            set_replace(sets, t, Vec::new());
            proof {
                lemma_set_views_kept(before_clear, sets@, t as int);
                let sets4 = sets3.update(l as int, sets3[l as int] + sets3[t as int].reverse());
                assert(set_views(sets@) =~= sets4.update(t as int, Seq::empty()));
                assert(map@ =~= map2.insert(k, l));
            }
        }
    }

    /// Groups the wire cells of each colour into sets of (mostly) contiguous
    /// wires, in scan order: colour by colour, row by row (see `scan_cell`).
    /// The result is the non-empty sets, with their colours, in the order
    /// in which they were started; each holds only wire cells of its colour.
    pub fn wire_sets(&self) -> (r: Vec<(WireColor, Vec<(usize, usize)>)>)
        requires
            self.wf(),
        ensures
            r@.len() == self.spec_wire_sets().len(),
            forall|i: int|
                0 <= i < r@.len() ==> (#[trigger] r@[i]).0 == self.spec_wire_sets()[i].0 && r@[i].1@
                    == self.spec_wire_sets()[i].1,
            forall|i: int|
                0 <= i < r@.len() ==> (#[trigger] r@[i]).1@.len() > 0 && forall|j: int|
                    0 <= j < r@[i].1@.len() ==> self.is_wire_cell(#[trigger] r@[i].1@[j], r@[i].0),
    {
        let mut colors: Vec<WireColor> = Vec::new();
        let mut sets: Vec<Vec<(usize, usize)>> = Vec::new();
        let n = self.cells.len();
        let width = self.width;
        let height = self.height;
        proof {
            self.lemma_wf();
            assert(set_views(sets@) =~= self.scan_colors(0).1);
            assert(colors@ =~= self.scan_colors(0).2);
        }
        let mut ci: usize = 0;
        while ci < WIRE_COLORS
            invariant
                self.wf(),
                n == self.cells().len(),
                n == width * height,
                width == self.w(),
                height == self.h(),
                ci <= 5,
                self.sets_sound(colors@, sets@),
                set_views(sets@) == self.scan_colors(ci as int).1,
                colors@ == self.scan_colors(ci as int).2,
            decreases 5 - ci,
        {
            let color = WireColor::from_index(ci);
            let mut map: BTreeMap<usize, usize> = BTreeMap::new();
            let ghost start: SetScan = (map@, set_views(sets@), colors@);
            proof {
                assert(map@ =~= Map::empty());
            }
            let mut y: usize = 0;
            while y < height
                invariant
                    self.wf(),
                    n == self.cells().len(),
                    n == width * height,
                    width == self.w(),
                    height == self.h(),
                    color.idx() == ci,
                    ci < 5,
                    y <= height,
                    Self::map_sound(map@, sets@, colors@, color),
                    self.sets_sound(colors@, sets@),
                    (map@, set_views(sets@), colors@) == self.scan_rows(start, color, y as int),
                decreases height - y,
            {
                let mut x: usize = 0;
                while x < width
                    invariant
                        self.wf(),
                        n == self.cells().len(),
                        n == width * height,
                        width == self.w(),
                        height == self.h(),
                        color.idx() == ci,
                        ci < 5,
                        y < height,
                        x <= width,
                            Self::map_sound(map@, sets@, colors@, color),
                        self.sets_sound(colors@, sets@),
                        (map@, set_views(sets@), colors@) == self.scan_row(
                            self.scan_rows(start, color, y as int),
                            color,
                            y as int,
                            x as int,
                        ),
                    decreases width - x,
                {
                    self.scan_wire_cell(&mut map, &mut sets, &mut colors, color, x, y);
                    x = x + 1;
                }
                y = y + 1;
            }
            proof {
                assert(color == WireColor::from_idx(ci as int));
            }
            ci = ci + 1;
        }

        let ghost all_sets = set_views(sets@);
        let ghost all_colors = colors@;
        let mut result: Vec<(WireColor, Vec<(usize, usize)>)> = Vec::new();
        let count = sets.len();
        let mut i: usize = 0;
        while i < count
            invariant
                i <= count,
                count == sets@.len(),
                count == all_sets.len(),
                colors@ == all_colors,
                forall|j: int| i <= j < count ==> #[trigger] sets@[j]@ == all_sets[j],
                self.sets_sound(colors@, sets@),
                result@.len() == kept_sets(all_sets, all_colors, i as int).len(),
                forall|j: int|
                    0 <= j < result@.len() ==> (#[trigger] result@[j]).0 == kept_sets(all_sets, all_colors, i as int)[j].0
                        && result@[j].1@ == kept_sets(all_sets, all_colors, i as int)[j].1,
                forall|j: int|
                    0 <= j < result@.len() ==> (#[trigger] result@[j]).1@.len() > 0 && forall|jj: int|
                        0 <= jj < result@[j].1@.len() ==> self.is_wire_cell(#[trigger] result@[j].1@[jj], result@[j].0),
            decreases count - i,
        {
            if sets[i].len() > 0 {
                let mut set: Vec<(usize, usize)> = Vec::new();
                let ghost kept = sets@[i as int];
                std::mem::swap(&mut sets[i], &mut set);
                proof {
                    assert(set@ == kept@);
                    assert forall|jj: int| 0 <= jj < set@.len() implies self.is_wire_cell(#[trigger] set@[jj], colors@[i as int]) by {
                        assert(set@[jj] == kept@[jj]);
                    }
                }
                result.push((colors[i], set));
            }
            i = i + 1;
        }
        result
    }

    /// The wires of the grid, in the form in which wires are saved: each
    /// wire set (see `wire_sets`) with its colour, kept to its inflection
    /// points. Every wire has at least one point, and every point is a wire
    /// cell of the wire's colour.
    pub fn wire_points(&self) -> (r: Vec<WirePoints>)
        requires
            self.wf(),
            self.w() <= i32::MAX,
            self.h() <= i32::MAX,
        ensures
            r@.len() == self.spec_wire_sets().len(),
            forall|i: int|
                0 <= i < r@.len() ==> (#[trigger] r@[i]).0 == self.spec_wire_sets()[i].0 && r@[i].1@
                    == inflection_points(self.spec_wire_sets()[i].1),
            forall|i: int|
                0 <= i < r@.len() ==> (#[trigger] r@[i]).1@.len() > 0 && forall|j: int|
                    0 <= j < r@[i].1@.len() ==> self.is_wire_cell(#[trigger] r@[i].1@[j], r@[i].0),
    {
        let wire_sets = self.wire_sets();
        let mut wire_points: Vec<WirePoints> = Vec::new();
        let n = wire_sets.len();
        let mut i: usize = 0;
        while i < n
            invariant
                self.wf(),
                self.w() <= i32::MAX,
                self.h() <= i32::MAX,
                i <= n,
                n == wire_sets@.len(),
                forall|k: int|
                    i <= k < n ==> (#[trigger] wire_sets@[k]).1@.len() > 0 && forall|j: int|
                        0 <= j < wire_sets@[k].1@.len() ==> self.is_wire_cell(#[trigger] wire_sets@[k].1@[j], wire_sets@[k].0),
                forall|k: int|
                    0 <= k < wire_points@.len() ==> (#[trigger] wire_points@[k]).1@.len() > 0 && forall|j: int|
                        0 <= j < wire_points@[k].1@.len() ==> self.is_wire_cell(#[trigger] wire_points@[k].1@[j], wire_points@[k].0),
                wire_points@.len() == i,
                n == self.spec_wire_sets().len(),
                forall|k: int|
                    0 <= k < n ==> (#[trigger] wire_sets@[k]).0 == self.spec_wire_sets()[k].0 && wire_sets@[k].1@
                        == self.spec_wire_sets()[k].1,
                forall|k: int|
                    0 <= k < i ==> (#[trigger] wire_points@[k]).0 == self.spec_wire_sets()[k].0 && wire_points@[k].1@
                        == inflection_points(self.spec_wire_sets()[k].1),
            decreases n - i,
        {
            let color = wire_sets[i].0;
            let set = copy_vec(&wire_sets[i].1);
            let ghost taken = wire_sets@[i as int];
            proof {
                assert(set@ == taken.1@);
                assert(forall|j: int| 0 <= j < set@.len() ==> self.is_wire_cell(#[trigger] set@[j], color));
                lemma_inflection_points_subset(set@);
                assert forall|j: int| 0 <= j < set@.len() implies (#[trigger] set@[j]).0 <= i32::MAX && set@[j].1 <= i32::MAX by {
                    assert(self.is_wire_cell(set@[j], color));
                }
            }
            let points = wire_set_into_points(set);
            proof {
                assert forall|j: int| 0 <= j < points@.len() implies self.is_wire_cell(#[trigger] points@[j], color) by {
                    assert(taken.1@.contains(points@[j]));
                }
            }
            wire_points.push((color, points));
            i = i + 1;
        }
        wire_points
    }
}

/// Fading a signal twice is fading it by the sum of both amounts.
pub proof fn law_decay_composes(v: WireValue, a: u16, b: u16)
    requires
        a + b <= u16::MAX,
    ensures
        decayed(decayed(v, a), b) == decayed(v, (a + b) as u16),
{
}

/// Fading keeps whether a value is connected and whether it is a terminal,
/// and never strengthens its signal.
pub proof fn law_decay_keeps_shape(v: WireValue, a: u16)
    ensures
        decayed(v, a).connected() == v.connected(),
        decayed(v, a).is_terminal() == v.is_terminal(),
        decayed(v, a).signal() <= v.signal(),
{
}

/// Sending power changes the value of at most one colour of a cell.
pub proof fn law_send_power_changes_at_most_one(vals: Seq<WireValue>, power: u8)
    requires
        vals.len() == 5,
    ensures
        forall|i: int, j: int|
            0 <= i < j < 5 ==> #[trigger] cell_power_sent(vals, power)[i] == vals[i]
                || #[trigger] cell_power_sent(vals, power)[j] == vals[j],
{
    lemma_first_terminal_range(vals, 0);
}

pub proof fn lemma_first_terminal_range(vals: Seq<WireValue>, from: int)
    ensures
        first_terminal(vals, from) matches Some(k) ==> from <= k < 5,
    decreases 5 - from,
{
    if 0 <= from < 5 {
        lemma_first_terminal_range(vals, from + 1);
    }
}

/// A remembered wire that an update rewrites was connected before; cells
/// without a wire stay without one, and bundle wires are never rewritten.
pub proof fn law_update_never_connects(g: WireGrid, x: int, y: int, c: int)
    ensures
        g.is_updated(x, y, c) ==> g.value_at(x, y, c).connected(),
        g.is_updated(x, y, c) ==> c != 0,
{
}

/// Lists with the same positions name the same cells, in any order.
proof fn lemma_lists_cell_same(ws1: Seq<(usize, usize)>, ws2: Seq<(usize, usize)>, width: int, k: int)
    requires
        forall|p: (usize, usize)| ws1.contains(p) == ws2.contains(p),
    ensures
        lists_cell(ws1, width, k, ws1.len() as int) == lists_cell(ws2, width, k, ws2.len() as int),
{
    if lists_cell(ws1, width, k, ws1.len() as int) {
        let j = choose|j: int| 0 <= j < ws1.len() && cell_index(width, (#[trigger] ws1[j]).0 as int, ws1[j].1 as int) == k;
        assert(ws1.contains(ws1[j]));
        let j2 = choose|j2: int| 0 <= j2 < ws2.len() && ws2[j2] == ws1[j];
        assert(cell_index(width, ws2[j2].0 as int, ws2[j2].1 as int) == k);
    }
    if lists_cell(ws2, width, k, ws2.len() as int) {
        let j = choose|j: int| 0 <= j < ws2.len() && cell_index(width, (#[trigger] ws2[j]).0 as int, ws2[j].1 as int) == k;
        assert(ws2.contains(ws2[j]));
        let j1 = choose|j1: int| 0 <= j1 < ws1.len() && ws1[j1] == ws2[j];
        assert(cell_index(width, ws1[j1].0 as int, ws1[j1].1 as int) == k);
    }
}

/// The wire update does not depend on the order in which the wires were
/// laid: two grids with the same cells that remember the same wires, in
/// any order, rewrite the same cells with the same values.
pub proof fn law_update_order_agnostic(g1: WireGrid, g2: WireGrid, x: int, y: int, c: int)
    requires
        g1.w() == g2.w(),
        g1.cells() == g2.cells(),
        forall|cc: int, p: (usize, usize)| 0 <= cc < 5 ==> #[trigger] g1.wires(cc).contains(p) == g2.wires(cc).contains(p),
        0 <= c < 5,
    ensures
        g1.is_updated(x, y, c) == g2.is_updated(x, y, c),
        g1.updated_wire(x, y, c) == g2.updated_wire(x, y, c),
{
    assert forall|p: (usize, usize)| g1.wires(c).contains(p) == g2.wires(c).contains(p) by {}
    assert forall|k: int| #[trigger] g1.snapshot_value(k, c) == g2.snapshot_value(k, c) by {
        lemma_lists_cell_same(g1.wires(c), g2.wires(c), g1.w(), k);
    }
}

/// Taking the update snapshot of a snapshot changes nothing: a grid whose
/// cells equal the snapshot of `g` (with the same wire lists) is its own
/// snapshot.
pub proof fn law_snapshot_idempotent(g: WireGrid, h: WireGrid)
    requires
        g.wf(),
        h.wf(),
        h.w() == g.w(),
        h.cells().len() == g.cells().len(),
        forall|c: int| 0 <= c < 5 ==> #[trigger] h.wires(c) == g.wires(c),
        forall|k: int, c: int|
            0 <= k < g.cells().len() && 0 <= c < 5 ==> #[trigger] h.cells()[k]@[c] == g.snapshot_value(k, c),
    ensures
        forall|k: int, c: int|
            0 <= k < h.cells().len() && 0 <= c < 5 ==> #[trigger] h.snapshot_value(k, c) == h.cells()[k]@[c],
{
    assert forall|k: int, c: int| 0 <= k < h.cells().len() && 0 <= c < 5 implies #[trigger] h.snapshot_value(k, c) == h.cells()[k]@[c] by {
        assert(h.wires(c) == g.wires(c));
        assert(h.cells()[k]@[c] == g.snapshot_value(k, c));
    }
}

} // verus!
