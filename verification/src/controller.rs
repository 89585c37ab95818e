//! The controller engine: a bank-indexed grid of components.
//!
//! The engine owns `BANK_COUNT` independent copies of the component set a
//! preset describes, a table mapping each known controller ID to its
//! component kind, and the currently selected bank. Dispatch routes an
//! incoming control-change pair to the matching component of the current
//! bank; binding installs an action on the current bank's copy only.

use std::collections::HashMap;

use vstd::prelude::*;

use crate::component::{ActionSink, Component, ComponentType, Invocation};
use crate::preset::{list_ids, ParseError, Preset};

verus! {

broadcast use vstd::std_specs::hash::group_hash_axioms;

/// Number of banks the engine keeps.
pub const BANK_COUNT: usize = 9;

/// A bank-select value at or above [`BANK_COUNT`]; the engine rejects it
/// and stays in its current bank.
#[derive(Clone, Copy, Debug, PartialEq, Eq, Structural)]
pub struct BankOutOfRange;

/// The controller IDs of a row of components, in row order.
pub open spec fn row_ids(row: Seq<Component>) -> Seq<u8> {
    row.map_values(|c: Component| c.controller)
}

/// Index of the first component in `row` whose controller ID is `id`; the
/// row length when none matches.
pub open spec fn match_idx(row: Seq<Component>, id: u8) -> nat
    decreases row.len(),
{
    if row.len() == 0 {
        0
    } else if row[0].controller == id {
        0
    } else {
        1 + match_idx(row.drop_first(), id)
    }
}

/// Whether some component in `row` has controller ID `id`.
pub open spec fn has_id(row: Seq<Component>, id: u8) -> bool {
    exists|i: int| 0 <= i < row.len() && row[i].controller == id
}

/// Characterizes [`match_idx`]: it is the index of the first match, it
/// stays within the row, and it falls short of the row length exactly
/// when the row has the ID at all.
pub proof fn lemma_match_idx(row: Seq<Component>, id: u8)
    ensures
        match_idx(row, id) <= row.len(),
        forall|j: int| 0 <= j < match_idx(row, id) ==> row[j].controller != id,
        match_idx(row, id) < row.len() ==> row[match_idx(row, id) as int].controller == id,
        match_idx(row, id) < row.len() <==> has_id(row, id),
    decreases row.len(),
{
    if row.len() == 0 {
    } else if row[0].controller == id {
    } else {
        lemma_match_idx(row.drop_first(), id);
        let m = match_idx(row, id) as int;
        assert forall|j: int| 0 <= j < m implies row[j].controller != id by {
            if j > 0 {
                assert(row.drop_first()[j - 1] == row[j]);
            }
        }
        if m < row.len() {
            assert(row.drop_first()[m - 1] == row[m]);
        }
        if has_id(row, id) {
            let i = choose|i: int| 0 <= i < row.len() && row[i].controller == id;
            assert(row.drop_first()[i - 1] == row[i]);
        }
        if has_id(row.drop_first(), id) {
            let i = choose|i: int|
                0 <= i < row.drop_first().len() && row.drop_first()[i].controller == id;
            assert(row.drop_first()[i] == row[i + 1]);
        }
    }
}

/// Finds the first component of `row` with controller ID `id`.
fn find_component(row: &Vec<Component>, id: u8) -> (r: Option<usize>)
    ensures
        match r {
            Some(j) => j == match_idx(row@, id) && (j as int) < row@.len(),
            None => !has_id(row@, id),
        },
{
    let mut i: usize = 0;
    while i < row.len()
        invariant
            0 <= i <= row@.len(),
            forall|j: int| 0 <= j < i ==> row@[j].controller != id,
        decreases row@.len() - i,
    {
        if row[i].get_controller() == id {
            proof {
                lemma_match_idx(row@, id);
                if match_idx(row@, id) < i {
                    assert(row@[match_idx(row@, id) as int].controller != id);
                }
            }
            return Some(i);
        }
        i = i + 1;
    }
    proof {
        lemma_match_idx(row@, id);
        if match_idx(row@, id) < row@.len() {
            assert(row@[match_idx(row@, id) as int].controller != id);
        }
    }
    None
}

/// The controller-mapping engine.
///
/// `controllers` is the kind-lookup table built from the preset; each of
/// `sliders`, `buttons` and `dials` holds one row of components per bank,
/// the outer index being the bank. Every bank owns its own copies, so
/// bindings are bank-local.
pub struct Controller {
    pub bank: usize,
    pub controllers: HashMap<u8, ComponentType>,
    pub sliders: Vec<Vec<Component>>,
    pub buttons: Vec<Vec<Component>>,
    pub dials: Vec<Vec<Component>>,
}

impl Controller {
    /// The per-bank rows of the given kind, as sequences.
    pub open spec fn rows(&self, kind: ComponentType) -> Seq<Seq<Component>> {
        match kind {
            ComponentType::Slider => self.sliders@.map_values(|v: Vec<Component>| v@),
            ComponentType::Button => self.buttons@.map_values(|v: Vec<Component>| v@),
            ComponentType::Dial => self.dials@.map_values(|v: Vec<Component>| v@),
        }
    }

    /// Well-formedness: the bank is in range, every kind has one row per
    /// bank, and every ID in the kind table occurs in its kind's row in
    /// every bank — so a dispatch for a known ID always finds a component.
    pub open spec fn wf(&self) -> bool {
        &&& (self.bank as int) < BANK_COUNT as int
        &&& self.sliders@.len() == BANK_COUNT as int
        &&& self.buttons@.len() == BANK_COUNT as int
        &&& self.dials@.len() == BANK_COUNT as int
        &&& forall|id: u8, b: int|
            #![auto]
            self.controllers@.contains_key(id) && 0 <= b < BANK_COUNT as int ==> has_id(
                self.rows(self.controllers@[id])[b],
                id,
            )
    }

    /// What dispatch would return with bank `b` selected: the invocation
    /// of the first matching component's action in that bank, or nothing
    /// for an unknown or unbound controller ID.
    pub open spec fn spec_dispatch_in(&self, b: int, id: u8, value: u8) -> Option<Invocation> {
        if self.controllers@.contains_key(id) {
            let row = self.rows(self.controllers@[id])[b];
            if match_idx(row, id) < row.len() {
                row[match_idx(row, id) as int].spec_dispatch(value)
            } else {
                None
            }
        } else {
            None
        }
    }

    /// What dispatch returns in the currently selected bank.
    pub open spec fn spec_dispatch(&self, id: u8, value: u8) -> Option<Invocation> {
        self.spec_dispatch_in(self.bank as int, id, value)
    }

    /// Selects the bank that subsequent dispatch and bind calls act on.
    /// A value at or above [`BANK_COUNT`] is rejected and the engine is
    /// left unchanged.
    pub fn set_bank(&mut self, bank: u8) -> (r: Result<(), BankOutOfRange>)
        ensures
            (bank as int) < BANK_COUNT as int ==> r is Ok && *final(self) == (Controller {
                bank: bank as usize,
                ..*old(self)
            }),
            (bank as int) >= BANK_COUNT as int ==> r === Err(BankOutOfRange) && *final(self)
                == *old(self),
            old(self).wf() ==> final(self).wf(),
    {
        if (bank as usize) < BANK_COUNT {
            self.bank = bank as usize;
            proof {
                if old(self).wf() {
                    assert(self.rows(ComponentType::Slider) == old(self).rows(
                        ComponentType::Slider,
                    ));
                    assert(self.rows(ComponentType::Button) == old(self).rows(
                        ComponentType::Button,
                    ));
                    assert(self.rows(ComponentType::Dial) == old(self).rows(ComponentType::Dial));
                    assert forall|id: u8, b: int|
                        #![auto]
                        self.controllers@.contains_key(id) && 0 <= b < BANK_COUNT as int implies has_id(
                        self.rows(self.controllers@[id])[b],
                        id,
                    ) by {
                        assert(has_id(old(self).rows(old(self).controllers@[id])[b], id));
                    }
                }
            }
            Ok(())
        } else {
            Err(BankOutOfRange)
        }
    }

    /// Routes one control-change pair: looks up the kind `controller`
    /// belongs to, finds its component in the current bank, and returns
    /// the invocation of the bound action. Unknown controller IDs are
    /// silently ignored, as hardware may send messages for controls the
    /// preset does not model; the engine state never changes.
    pub fn set_component(&self, controller: u8, value: u8) -> (r: Option<Invocation>)
        requires
            self.wf(),
        ensures
            r == self.spec_dispatch(controller, value),
            !self.controllers@.contains_key(controller) ==> r is None,
    {
        let kind = match self.controllers.get(&controller) {
            Some(k) => *k,
            None => {
                return None;
            },
        };
        let row: &Vec<Component> = match kind {
            ComponentType::Slider => &self.sliders[self.bank],
            ComponentType::Button => &self.buttons[self.bank],
            ComponentType::Dial => &self.dials[self.bank],
        };
        assert(row@ == self.rows(kind)[self.bank as int]);
        match find_component(row, controller) {
            Some(j) => row[j].dispatch(value),
            None => {
                // An ID the kind table knows always has a component in
                // every bank: well-formedness rules this branch out, so
                // no internal-consistency error can arise here.
                proof {
                    assert(has_id(self.rows(kind)[self.bank as int], controller));
                    assert(false);
                }
                None
            },
        }
    }

    /// Binds `action` to the component with controller ID `controller` in
    /// the **current bank only**; every other bank's copy of the same ID
    /// keeps its binding. Unknown controller IDs are silently ignored. Any
    /// previous binding of the target component is discarded.
    pub fn bind_component(&mut self, controller: u8, action: ActionSink)
        requires
            old(self).wf(),
        ensures
            final(self).wf(),
            bind_rel(*old(self), *final(self), controller, action),
    {
        let kind = match self.controllers.get(&controller) {
            Some(k) => *k,
            None => {
                proof {
                    assert forall|k: ComponentType, b: int|
                        0 <= b < self.rows(k).len() implies #[trigger] self.rows(k)[b]
                        == spec_bind_row(*self, k, b, controller, action) by {}
                }
                return;
            },
        };
        let b = self.bank;
        let j = {
            let row: &Vec<Component> = match kind {
                ComponentType::Slider => &self.sliders[b],
                ComponentType::Button => &self.buttons[b],
                ComponentType::Dial => &self.dials[b],
            };
            assert(row@ == self.rows(kind)[b as int]);
            match find_component(row, controller) {
                Some(j) => j,
                None => {
                    // A known ID always occurs in its kind's row: wf rules
                    // this branch out.
                    proof {
                        assert(has_id(self.rows(kind)[b as int], controller));
                        assert(false);
                    }
                    return;
                },
            }
        };
        let bound = Component { controller, action: Some(action) };
        match kind {
            ComponentType::Slider => {
                let new_row = row_with(&self.sliders[b], j, bound);
                self.sliders[b] = new_row;
            },
            ComponentType::Button => {
                let new_row = row_with(&self.buttons[b], j, bound);
                self.buttons[b] = new_row;
            },
            ComponentType::Dial => {
                let new_row = row_with(&self.dials[b], j, bound);
                self.dials[b] = new_row;
            },
        }
        proof {
            lemma_bind_updates(*old(self), *self, controller, action, kind, b as int, j as int);
        }
    }

    /// Builds an engine from a preset: parses the three kind
    /// descriptions, creates one unbound component per named ID, indexes
    /// every ID by its kind, and replicates each kind's row into
    /// [`BANK_COUNT`] independent banks. Bank 0 starts selected. Fails
    /// exactly when some description does not parse, in which case no
    /// engine is constructed.
    pub fn from_preset(preset: Preset) -> (r: Result<Controller, ParseError>)
        ensures
            match r {
                Ok(c) => {
                    &&& preset_ok(preset)
                    &&& c.wf()
                    &&& c.bank == 0
                    &&& c.controllers@ == spec_kind_map(preset)
                    &&& forall|k: ComponentType, b: int|
                        0 <= b < BANK_COUNT as int ==> row_ids(#[trigger] c.rows(k)[b])
                            == preset_kind_ids(preset, k)
                    &&& forall|k: ComponentType, b: int, i: int|
                        #![auto]
                        0 <= b < BANK_COUNT as int && 0 <= i < c.rows(k)[b].len() ==> c.rows(
                            k,
                        )[b][i].action is None
                },
                Err(_) => !preset_ok(preset),
            },
    {
        let slider_ids = match crate::preset::parse_ids(preset.components.sliders.as_str()) {
            Ok(v) => v,
            Err(e) => {
                return Err(e);
            },
        };
        let button_ids = match crate::preset::parse_ids(preset.components.buttons.as_str()) {
            Ok(v) => v,
            Err(e) => {
                return Err(e);
            },
        };
        let dial_ids = match crate::preset::parse_ids(preset.components.dials.as_str()) {
            Ok(v) => v,
            Err(e) => {
                return Err(e);
            },
        };
        let mut controllers: HashMap<u8, ComponentType> = HashMap::new();
        index_ids(&mut controllers, &slider_ids, ComponentType::Slider);
        index_ids(&mut controllers, &button_ids, ComponentType::Button);
        index_ids(&mut controllers, &dial_ids, ComponentType::Dial);
        proof {
            assert(controllers@ =~= spec_kind_map(preset));
        }
        let s_row = build_row(&slider_ids);
        let b_row = build_row(&button_ids);
        let d_row = build_row(&dial_ids);
        let c = Controller {
            bank: 0,
            controllers,
            sliders: replicate(&s_row),
            buttons: replicate(&b_row),
            dials: replicate(&d_row),
        };
        proof {
            assert forall|k: ComponentType, b: int|
                0 <= b < BANK_COUNT as int implies row_ids(#[trigger] c.rows(k)[b])
                == preset_kind_ids(preset, k) by {
                match k {
                    ComponentType::Slider => assert(c.rows(k)[b] == s_row@),
                    ComponentType::Button => assert(c.rows(k)[b] == b_row@),
                    ComponentType::Dial => assert(c.rows(k)[b] == d_row@),
                }
            }
            assert forall|id: u8, b: int|
                #![auto]
                c.controllers@.contains_key(id) && 0 <= b < BANK_COUNT as int implies has_id(
                c.rows(c.controllers@[id])[b],
                id,
            ) by {
                let kind = c.controllers@[id];
                let ids = preset_kind_ids(preset, kind);
                assert(ids.contains(id));
                let w = choose|w: int| 0 <= w < ids.len() && #[trigger] ids[w] == id;
                assert(row_ids(c.rows(kind)[b])[w] == c.rows(kind)[b][w].controller);
                assert(c.rows(kind)[b][w].controller == id);
                assert(has_id(c.rows(kind)[b], id));
            }
        }
        Ok(c)
    }

    /// Reacts to one decoded MIDI event: a control-change pair is
    /// dispatched in the current bank and yields the invocation to
    /// perform, if any; a bank-select signal switches banks and yields no
    /// invocation, failing when the requested bank is out of range.
    pub fn handle_event(&mut self, event: MidiEvent) -> (r: Result<
        Option<Invocation>,
        BankOutOfRange,
    >)
        requires
            old(self).wf(),
        ensures
            final(self).wf(),
            match event {
                MidiEvent::ControlChange { controller, value } => *final(self) == *old(self) && r
                    === Ok(old(self).spec_dispatch(controller, value)),
                MidiEvent::BankSelect(bank) => {
                    &&& (bank as int) < BANK_COUNT as int ==> r === Ok(None::<Invocation>)
                        && *final(self) == (Controller { bank: bank as usize, ..*old(self) })
                    &&& (bank as int) >= BANK_COUNT as int ==> r === Err(BankOutOfRange)
                        && *final(self) == *old(self)
                },
            },
    {
        match event {
            MidiEvent::ControlChange { controller, value } => Ok(
                self.set_component(controller, value),
            ),
            MidiEvent::BankSelect(bank) => match self.set_bank(bank) {
                Ok(()) => Ok(None),
                Err(e) => Err(e),
            },
        }
    }
}

/// One decoded MIDI event the engine reacts to: a control-change pair, or
/// a bank-select signal carrying the requested bank.
#[derive(Clone, Copy, Debug, PartialEq, Eq)]
pub enum MidiEvent {
    ControlChange { controller: u8, value: u8 },
    BankSelect(u8),
}

/// The bank-select signal carried by a SysEx payload: its last byte, or
/// nothing for an empty payload.
pub fn bank_select_byte(payload: &Vec<u8>) -> (r: Option<u8>)
    ensures
        payload@.len() == 0 ==> r is None,
        payload@.len() > 0 ==> r == Some(payload@.last()),
{
    if payload.len() == 0 {
        None
    } else {
        Some(payload[payload.len() - 1])
    }
}

/// The contained sequence of an optional ID list, or the empty sequence.
pub open spec fn ids_of(o: Option<Seq<u8>>) -> Seq<u8> {
    match o {
        Some(ids) => ids,
        None => Seq::empty(),
    }
}

/// Whether every kind description of `p` parses.
pub open spec fn preset_ok(p: Preset) -> bool {
    &&& list_ids(p.components.sliders@) is Some
    &&& list_ids(p.components.buttons@) is Some
    &&& list_ids(p.components.dials@) is Some
}

/// The controller IDs `p` names for kind `k`, in listing order and with
/// duplicates kept.
pub open spec fn preset_kind_ids(p: Preset, k: ComponentType) -> Seq<u8> {
    match k {
        ComponentType::Slider => ids_of(list_ids(p.components.sliders@)),
        ComponentType::Button => ids_of(list_ids(p.components.buttons@)),
        ComponentType::Dial => ids_of(list_ids(p.components.dials@)),
    }
}

/// The kind-lookup table `p` induces: every named ID maps to its kind,
/// a later listing overriding an earlier one in the order sliders,
/// buttons, dials (so an ID listed under two kinds routes to the later
/// kind — the engine does not reject such presets).
pub open spec fn spec_kind_map(p: Preset) -> Map<u8, ComponentType> {
    Map::new(
        |id: u8|
            preset_kind_ids(p, ComponentType::Slider).contains(id) || preset_kind_ids(
                p,
                ComponentType::Button,
            ).contains(id) || preset_kind_ids(p, ComponentType::Dial).contains(id),
        |id: u8|
            if preset_kind_ids(p, ComponentType::Dial).contains(id) {
                ComponentType::Dial
            } else if preset_kind_ids(p, ComponentType::Button).contains(id) {
                ComponentType::Button
            } else {
                ComponentType::Slider
            },
    )
}

/// The kind table one ID list induces: each listed ID maps to `kind`.
pub open spec fn kind_map_of(ids: Seq<u8>, kind: ComponentType) -> Map<u8, ComponentType> {
    Map::new(|id: u8| ids.contains(id), |id: u8| kind)
}

/// Records every ID of `ids` under kind `kind`, overriding earlier
/// entries.
fn index_ids(m: &mut HashMap<u8, ComponentType>, ids: &Vec<u8>, kind: ComponentType)
    ensures
        final(m)@ == old(m)@.union_prefer_right(kind_map_of(ids@, kind)),
{
    proof {
        assert(old(m)@.union_prefer_right(kind_map_of(ids@.take(0), kind)) =~= old(m)@);
    }
    let mut i: usize = 0;
    while i < ids.len()
        invariant
            0 <= i <= ids@.len(),
            m@ == old(m)@.union_prefer_right(kind_map_of(ids@.take(i as int), kind)),
        decreases ids@.len() - i,
    {
        m.insert(ids[i], kind);
        proof {
            assert(ids@.take(i + 1) =~= ids@.take(i as int).push(ids@[i as int]));
            assert forall|id: u8| #[trigger]
                ids@.take(i + 1).contains(id) implies ids@.take(i as int).contains(id) || id
                == ids@[i as int] by {
                let w = choose|w: int| 0 <= w < i + 1 && #[trigger] ids@.take(i + 1)[w] == id;
                if w < i {
                    assert(ids@.take(i as int)[w] == id);
                }
            }
            assert forall|id: u8|
                ids@.take(i as int).contains(id) implies ids@.take(i + 1).contains(id) by {
                let w = choose|w: int| 0 <= w < i && #[trigger] ids@.take(i as int)[w] == id;
                assert(ids@.take(i + 1)[w] == id);
            }
            assert(ids@.take(i + 1)[i as int] == ids@[i as int]);
            assert(ids@.take(i + 1).contains(ids@[i as int]));
            assert(m@ =~= old(m)@.union_prefer_right(kind_map_of(ids@.take(i + 1), kind)));
        }
        i = i + 1;
    }
    proof {
        assert(ids@.take(ids@.len() as int) =~= ids@);
    }
}

/// One fresh, unbound component per listed ID, in listing order.
fn build_row(ids: &Vec<u8>) -> (row: Vec<Component>)
    ensures
        row_ids(row@) == ids@,
        row@.len() == ids@.len(),
        forall|i: int| 0 <= i < row@.len() ==> row@[i].action is None,
{
    let mut row: Vec<Component> = Vec::new();
    let mut i: usize = 0;
    while i < ids.len()
        invariant
            0 <= i <= ids@.len(),
            row@.len() == i,
            forall|x: int|
                0 <= x < i ==> (#[trigger] row@[x]).controller == ids@[x] && row@[x].action
                    is None,
        decreases ids@.len() - i,
    {
        row.push(Component::new(ids[i]));
        i = i + 1;
    }
    assert(row_ids(row@) =~= ids@);
    row
}

/// An independent copy of `row`: each bank gets a distinct instance, so a
/// binding in one bank cannot alias another bank's component.
fn clone_row(row: &Vec<Component>) -> (r: Vec<Component>)
    ensures
        r@ == row@,
{
    let mut out: Vec<Component> = Vec::new();
    let mut i: usize = 0;
    while i < row.len()
        invariant
            0 <= i <= row@.len(),
            out@.len() == i,
            forall|x: int| 0 <= x < i ==> out@[x] == row@[x],
        decreases row@.len() - i,
    {
        out.push(row[i]);
        i = i + 1;
    }
    assert(out@ =~= row@);
    out
}

/// `BANK_COUNT` independent copies of `row`, one per bank.
fn replicate(row: &Vec<Component>) -> (banks: Vec<Vec<Component>>)
    ensures
        banks@.len() == BANK_COUNT as int,
        forall|b: int| 0 <= b < BANK_COUNT as int ==> (#[trigger] banks@[b])@ == row@,
{
    let mut banks: Vec<Vec<Component>> = Vec::new();
    let mut b: usize = 0;
    while b < BANK_COUNT
        invariant
            0 <= b <= BANK_COUNT,
            banks@.len() == b,
            forall|x: int| 0 <= x < b ==> (#[trigger] banks@[x])@ == row@,
        decreases BANK_COUNT - b,
    {
        banks.push(clone_row(row));
        b = b + 1;
    }
    banks
}

/// The row of kind `k` in bank `b` after `bind_component(id, action)` on
/// `pre`: unchanged unless `id` routes to kind `k` and `b` is the current
/// bank, in which case the first component matching `id` now carries
/// `action`.
pub open spec fn spec_bind_row(
    pre: Controller,
    k: ComponentType,
    b: int,
    id: u8,
    action: ActionSink,
) -> Seq<Component> {
    let row = pre.rows(k)[b];
    if pre.controllers@.contains_key(id) && pre.controllers@[id] == k && b == pre.bank as int
        && match_idx(row, id) < row.len() {
        row.update(match_idx(row, id) as int, (Component { controller: id, action: Some(action) }))
    } else {
        row
    }
}

/// How an engine after `bind_component(id, action)` relates to the engine
/// before: same bank, same kind table, and every row unchanged except the
/// current bank's row of `id`'s kind, whose first matching component now
/// carries `action`.
pub open spec fn bind_rel(pre: Controller, post: Controller, id: u8, action: ActionSink) -> bool {
    &&& post.bank == pre.bank
    &&& post.controllers@ == pre.controllers@
    &&& post.sliders@.len() == pre.sliders@.len()
    &&& post.buttons@.len() == pre.buttons@.len()
    &&& post.dials@.len() == pre.dials@.len()
    &&& forall|k: ComponentType, b: int|
        0 <= b < pre.rows(k).len() ==> #[trigger] post.rows(k)[b] == spec_bind_row(
            pre,
            k,
            b,
            id,
            action,
        )
}

/// A copy of `row` with the component at `j` replaced by `c`.
fn row_with(row: &Vec<Component>, j: usize, c: Component) -> (r: Vec<Component>)
    requires
        (j as int) < row@.len(),
    ensures
        r@ == row@.update(j as int, c),
{
    let mut out: Vec<Component> = Vec::new();
    let mut i: usize = 0;
    while i < row.len()
        invariant
            0 <= i <= row@.len(),
            out@.len() == i,
            forall|x: int| 0 <= x < i ==> out@[x] == row@[x],
        decreases row@.len() - i,
    {
        out.push(row[i]);
        i = i + 1;
    }
    assert(out@ =~= row@);
    out[j] = c;
    out
}

proof fn lemma_bind_updates(
    pre: Controller,
    post: Controller,
    id: u8,
    action: ActionSink,
    kind: ComponentType,
    b: int,
    j: int,
)
    requires
        pre.wf(),
        pre.controllers@.contains_key(id),
        pre.controllers@[id] == kind,
        b == pre.bank as int,
        j == match_idx(pre.rows(kind)[b], id),
        j < pre.rows(kind)[b].len(),
        post.bank == pre.bank,
        post.controllers == pre.controllers,
        match kind {
            ComponentType::Slider => post.sliders@ == pre.sliders@.update(b, post.sliders@[b])
                && post.buttons == pre.buttons && post.dials == pre.dials,
            ComponentType::Button => post.buttons@ == pre.buttons@.update(b, post.buttons@[b])
                && post.sliders == pre.sliders && post.dials == pre.dials,
            ComponentType::Dial => post.dials@ == pre.dials@.update(b, post.dials@[b])
                && post.sliders == pre.sliders && post.buttons == pre.buttons,
        },
        post.rows(kind)[b] == pre.rows(kind)[b].update(
            j,
            (Component { controller: id, action: Some(action) }),
        ),
    ensures
        post.wf(),
        bind_rel(pre, post, id, action),
{
    lemma_match_idx(pre.rows(kind)[b], id);
    assert forall|k: ComponentType, bb: int| 0 <= bb < pre.rows(k).len() implies #[trigger] post
        .rows(k)[bb] == spec_bind_row(pre, k, bb, id, action) by {
        if k != kind || bb != b {
            assert(post.rows(k)[bb] == pre.rows(k)[bb]);
        }
    }
    assert forall|id2: u8, bb: int|
        #![auto]
        post.controllers@.contains_key(id2) && 0 <= bb < BANK_COUNT as int implies has_id(
        post.rows(post.controllers@[id2])[bb],
        id2,
    ) by {
        let k2 = post.controllers@[id2];
        assert(has_id(pre.rows(k2)[bb], id2));
        let w = choose|i: int| 0 <= i < pre.rows(k2)[bb].len() && pre.rows(k2)[bb][i].controller
            == id2;
        if k2 == kind && bb == b {
            assert(pre.rows(kind)[b][j].controller == id);
            assert(post.rows(k2)[bb][w].controller == id2);
        } else {
            assert(post.rows(k2)[bb] == pre.rows(k2)[bb]);
        }
    }
}

/// Bank independence: binding an action while some bank is selected does
/// not change what dispatch returns in any other bank, for any controller
/// ID. Each bank owns its own copies of the components, so a binding is
/// visible only in the bank that was current when it was made.
pub proof fn lemma_bank_isolation(
    pre: Controller,
    post: Controller,
    id: u8,
    action: ActionSink,
    b2: int,
    id2: u8,
    value: u8,
)
    requires
        pre.wf(),
        bind_rel(pre, post, id, action),
        0 <= b2 < BANK_COUNT as int,
        b2 != pre.bank as int,
    ensures
        post.spec_dispatch_in(b2, id2, value) == pre.spec_dispatch_in(b2, id2, value),
{
    if pre.controllers@.contains_key(id2) {
        let kind = pre.controllers@[id2];
        assert(post.rows(kind)[b2] == spec_bind_row(pre, kind, b2, id, action));
        assert(post.rows(kind)[b2] == pre.rows(kind)[b2]);
    }
}

/// A binding takes effect in the bank it was made in: after binding
/// `action` to a controller ID the kind table knows, dispatching that ID
/// in the same bank invokes `action` with the dispatched value.
pub proof fn lemma_bind_takes_effect(
    pre: Controller,
    post: Controller,
    id: u8,
    action: ActionSink,
    value: u8,
)
    requires
        pre.wf(),
        bind_rel(pre, post, id, action),
        pre.controllers@.contains_key(id),
    ensures
        post.spec_dispatch(id, value) == Some(Invocation { sink: action, value }),
{
    let kind = pre.controllers@[id];
    let row = pre.rows(kind)[pre.bank as int];
    lemma_match_idx(row, id);
    let j = match_idx(row, id) as int;
    assert(post.rows(kind)[pre.bank as int] == spec_bind_row(
        pre,
        kind,
        pre.bank as int,
        id,
        action,
    ));
    let row2 = post.rows(kind)[post.bank as int];
    assert(row2 == row.update(j, (Component { controller: id, action: Some(action) })));
    lemma_match_idx(row2, id);
    assert(row2[j].controller == id);
    assert(has_id(row2, id));
    if match_idx(row2, id) < j {
        assert(row[match_idx(row2, id) as int].controller != id);
    }
    assert(match_idx(row2, id) == j);
    assert(row2[j].spec_dispatch(value) == Some(Invocation { sink: action, value }));
}

} // verus!
