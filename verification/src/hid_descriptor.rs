//! HID report descriptor parsing: the descriptor's items are replayed into a
//! list of button and axis fields, which then decode input reports.
use vstd::prelude::*;
use vstd::arithmetic::power2::pow2;
use vstd::arithmetic::power2::lemma_pow2_unfold;
use vstd::arithmetic::power2::lemma2_to64;

use crate::hid_bits::bits_value;
use crate::hid_bits::le_value;
use crate::hid_bits::read_bits;
use crate::hid_bits::reinterpret_i32;
use crate::hid_bits::sign_extend;
use crate::hid_bits::signed_value;
use crate::hid_bits::spec_read_bits;
use crate::hid_bits::spec_reinterpret_i32;
use crate::hid_bits::spec_sign_extend;
use crate::hid_bits::spec_signed_value;
use crate::hid_bits::spec_unsigned_value;
use crate::hid_bits::unsigned_value;
use crate::models::AxisValue;
use crate::models::DecodedInput;

verus! {

pub const ITEM_TYPE_MAIN: u8 = 0;
pub const ITEM_TYPE_GLOBAL: u8 = 1;
pub const ITEM_TYPE_LOCAL: u8 = 2;
pub const MAIN_INPUT: u8 = 8;
pub const GLOBAL_USAGE_PAGE: u8 = 0;
pub const GLOBAL_LOGICAL_MINIMUM: u8 = 1;
pub const GLOBAL_LOGICAL_MAXIMUM: u8 = 2;
pub const GLOBAL_REPORT_SIZE: u8 = 7;
pub const GLOBAL_REPORT_ID: u8 = 8;
pub const GLOBAL_REPORT_COUNT: u8 = 9;
pub const GLOBAL_PUSH: u8 = 10;
pub const GLOBAL_POP: u8 = 11;
pub const LOCAL_USAGE: u8 = 0;
pub const LOCAL_USAGE_MINIMUM: u8 = 1;
pub const LOCAL_USAGE_MAXIMUM: u8 = 2;
pub const USAGE_PAGE_BUTTON: u16 = 0x09;
pub const USAGE_PAGE_GENERIC_DESKTOP: u16 = 0x01;
pub const USAGE_PAGE_SIMULATION: u16 = 0x02;
pub const LONG_ITEM_PREFIX: u8 = 0xFE;

/// Why a report descriptor was rejected.
#[derive(Clone, Copy, Debug, PartialEq, Eq, Structural)]
pub enum DescriptorError {
    /// A long item whose two header bytes are missing.
    TruncatedLongItem,
    /// A short item whose data runs past the end of the descriptor.
    TruncatedItem,
    /// A global Pop item with nothing pushed.
    PopWithoutPush,
}

/// A usage, with its page when the item gave one.
#[derive(Clone, Copy, Debug)]
pub struct Usage {
    pub page: Option<u16>,
    pub id: u16,
}

/// The global item state of the descriptor parser.
#[derive(Clone, Copy, Debug)]
pub struct GlobalState {
    pub usage_page: u16,
    pub logical_min: i32,
    pub logical_max: i32,
    pub report_size: u32,
    pub report_count: u32,
    pub report_id: u8,
}

/// A one-or-more-bit button in an input report.
#[derive(Clone, Copy, Debug)]
pub struct ButtonField {
    pub report_id: u8,
    pub bit_offset: u32,
    pub bit_size: u32,
}

/// An axis value in an input report, with its logical range.
#[derive(Clone, Copy, Debug)]
pub struct ValueField {
    pub report_id: u8,
    pub bit_offset: u32,
    pub bit_size: u32,
    pub logical_min: i32,
    pub logical_max: i32,
}

/// The global state before any global item.
pub open spec fn initial_global() -> GlobalState {
    GlobalState {
        usage_page: 0,
        logical_min: 0,
        logical_max: 1,
        report_size: 0,
        report_count: 0,
        report_id: 0,
    }
}

impl Default for GlobalState {
    fn default() -> (g: GlobalState)
        ensures
            g == initial_global(),
    {
        GlobalState {
            usage_page: 0,
            logical_min: 0,
            logical_max: 1,
            report_size: 0,
            report_count: 0,
            report_id: 0,
        }
    }
}

/// The local item state, as the model sees it.
pub struct LocalModel {
    pub usages: Seq<Usage>,
    pub usage_min: Option<Usage>,
    pub usage_max: Option<Usage>,
}

/// The whole parser state, as the model sees it.
pub struct BuilderModel {
    pub global: GlobalState,
    pub stack: Seq<GlobalState>,
    pub local: LocalModel,
    pub offsets: Seq<(u8, u32)>,
    pub report_ids: Set<u8>,
    pub has_report_ids: bool,
    pub buttons: Seq<ButtonField>,
    pub axes: Seq<ValueField>,
}

/// The fields and sizes that a parsed descriptor defines.
pub struct ParserModel {
    pub has_report_ids: bool,
    pub input_report_bytes: nat,
    pub report_ids: Set<u8>,
    pub buttons: Seq<ButtonField>,
    pub axes: Seq<ValueField>,
}

pub open spec fn empty_local() -> LocalModel {
    LocalModel { usages: Seq::empty(), usage_min: None, usage_max: None }
}

/// Parser state before the first item.
pub open spec fn initial_model() -> BuilderModel {
    BuilderModel {
        global: initial_global(),
        stack: Seq::empty(),
        local: empty_local(),
        offsets: Seq::empty(),
        report_ids: Set::empty(),
        has_report_ids: false,
        buttons: Seq::empty(),
        axes: Seq::empty(),
    }
}

pub open spec fn sat_mul(a: u32, b: u32) -> u32 {
    if a * b > u32::MAX { u32::MAX } else { (a * b) as u32 }
}

pub open spec fn sat_add(a: u32, b: u32) -> u32 {
    if a + b > u32::MAX { u32::MAX } else { (a + b) as u32 }
}

pub open spec fn wrap_add(a: u32, b: u32) -> u32 {
    ((a + b) % 0x1_0000_0000) as u32
}

/// Whether a bit count is recorded for a report id.
pub open spec fn has_offset(offsets: Seq<(u8, u32)>, id: u8) -> bool {
    exists|i: int| 0 <= i < offsets.len() && #[trigger] offsets[i].0 == id
}

pub open spec fn offset_index(offsets: Seq<(u8, u32)>, id: u8) -> int {
    choose|i: int| 0 <= i < offsets.len() && #[trigger] offsets[i].0 == id
}

/// Bits already laid out for a report id (0 for a new id).
pub open spec fn offset_of(offsets: Seq<(u8, u32)>, id: u8) -> u32 {
    if has_offset(offsets, id) {
        offsets[offset_index(offsets, id)].1
    } else {
        0
    }
}

/// Records the bits laid out for a report id.
pub open spec fn set_offset(offsets: Seq<(u8, u32)>, id: u8, bits: u32) -> Seq<(u8, u32)> {
    if has_offset(offsets, id) {
        offsets.update(offset_index(offsets, id), (id, bits))
    } else {
        offsets.push((id, bits))
    }
}

/// No report id is recorded twice.
pub open spec fn unique_ids(offsets: Seq<(u8, u32)>) -> bool {
    forall|i: int, j: int|
        0 <= i < offsets.len() && 0 <= j < offsets.len() && i != j ==> #[trigger] offsets[i].0
            != #[trigger] offsets[j].0
}

/// A usage item's data: a page in the high half when the value exceeds 16 bits.
pub open spec fn spec_decode_usage(data: Seq<u8>) -> Usage {
    let raw = spec_unsigned_value(data);
    if raw > 0xFFFF {
        Usage { page: Some((raw / 0x1_0000) as u16), id: (raw % 0x1_0000) as u16 }
    } else {
        Usage { page: None, id: raw as u16 }
    }
}

/// Generic Desktop X..Wheel and vector usages, and Simulation controls, are axes.
pub open spec fn spec_is_axis_usage(usage_page: u16, usage: u16) -> bool {
    (usage_page == USAGE_PAGE_GENERIC_DESKTOP && 0x30 <= usage <= 0x39) || (usage_page
        == USAGE_PAGE_GENERIC_DESKTOP && 0x40 <= usage <= 0x48) || (usage_page
        == USAGE_PAGE_SIMULATION && 0xBB <= usage <= 0xC5)
}

/// `s` cut or padded with `fill` to length `n`.
pub open spec fn spec_resize(s: Seq<Usage>, n: nat, fill: Usage) -> Seq<Usage> {
    if n <= s.len() {
        s.take(n as int)
    } else {
        s + Seq::new((n - s.len()) as nat, |_i: int| fill)
    }
}

/// The usages of the next main item, one per report field.
pub open spec fn spec_expand_usages(local: LocalModel, count: nat) -> Seq<Usage> {
    if local.usages.len() > 0 {
        spec_resize(local.usages, count, local.usages.last())
    } else if local.usage_min is Some && local.usage_max is Some {
        let min = local.usage_min.unwrap();
        let max = local.usage_max.unwrap();
        let page = if min.page is Some { min.page } else { max.page };
        if min.id <= max.id {
            spec_resize(
                Seq::new((max.id - min.id + 1) as nat, |i: int| Usage { page, id: (min.id + i) as u16 }),
                count,
                Usage { page, id: max.id },
            )
        } else {
            Seq::empty()
        }
    } else {
        Seq::empty()
    }
}

pub open spec fn usage_or_default(usages: Seq<Usage>, index: int) -> Usage {
    if 0 <= index < usages.len() {
        usages[index]
    } else {
        Usage { page: None, id: 0 }
    }
}

pub open spec fn field_size(g: GlobalState) -> u32 {
    if g.report_size >= 1 { g.report_size } else { 1 }
}

/// The button and axis fields that the first `n` report fields of a variable
/// Input item define.
pub open spec fn spec_input_fields(g: GlobalState, usages: Seq<Usage>, start: u32, n: nat) -> (
    Seq<ButtonField>,
    Seq<ValueField>,
)
    decreases n,
{
    if n == 0 {
        (Seq::empty(), Seq::empty())
    } else {
        let prev = spec_input_fields(g, usages, start, (n - 1) as nat);
        let index = n - 1;
        let usage = usage_or_default(usages, index);
        let page = match usage.page {
            Some(p) => p,
            None => g.usage_page,
        };
        let offset = wrap_add(start, sat_mul(index as u32, g.report_size));
        if page == USAGE_PAGE_BUTTON {
            (
                prev.0.push(
                    ButtonField { report_id: g.report_id, bit_offset: offset, bit_size: field_size(g) },
                ),
                prev.1,
            )
        } else if spec_is_axis_usage(page, usage.id) {
            (
                prev.0,
                prev.1.push(
                    ValueField {
                        report_id: g.report_id,
                        bit_offset: offset,
                        bit_size: field_size(g),
                        logical_min: g.logical_min,
                        logical_max: g.logical_max,
                    },
                ),
            )
        } else {
            prev
        }
    }
}

/// An Input item: lays out its bits and, when it is variable, adds its fields.
pub open spec fn spec_handle_input(m: BuilderModel, flags: u32) -> BuilderModel {
    let g = m.global;
    let total = sat_mul(g.report_size, g.report_count);
    let start = offset_of(m.offsets, g.report_id);
    let offsets = set_offset(m.offsets, g.report_id, sat_add(start, total));
    if flags % 2 == 1 {
        BuilderModel { offsets, local: empty_local(), ..m }
    } else if (flags / 2) % 2 == 1 {
        let usages = spec_expand_usages(m.local, g.report_count as nat);
        let fields = spec_input_fields(g, usages, start, g.report_count as nat);
        BuilderModel {
            offsets,
            local: empty_local(),
            buttons: m.buttons + fields.0,
            axes: m.axes + fields.1,
            ..m
        }
    } else {
        BuilderModel { offsets, local: empty_local(), ..m }
    }
}

pub open spec fn spec_handle_main(m: BuilderModel, tag: u8, data: Seq<u8>) -> BuilderModel {
    if tag == MAIN_INPUT {
        spec_handle_input(m, spec_unsigned_value(data))
    } else {
        BuilderModel { local: empty_local(), ..m }
    }
}

pub open spec fn spec_handle_global(m: BuilderModel, tag: u8, data: Seq<u8>) -> Result<
    BuilderModel,
    DescriptorError,
> {
    let v = spec_unsigned_value(data);
    let g = m.global;
    if tag == GLOBAL_USAGE_PAGE {
        Ok(BuilderModel { global: GlobalState { usage_page: (v % 0x1_0000) as u16, ..g }, ..m })
    } else if tag == GLOBAL_LOGICAL_MINIMUM {
        Ok(BuilderModel { global: GlobalState { logical_min: spec_signed_value(data), ..g }, ..m })
    } else if tag == GLOBAL_LOGICAL_MAXIMUM {
        Ok(BuilderModel { global: GlobalState { logical_max: spec_signed_value(data), ..g }, ..m })
    } else if tag == GLOBAL_REPORT_SIZE {
        Ok(BuilderModel { global: GlobalState { report_size: v, ..g }, ..m })
    } else if tag == GLOBAL_REPORT_ID {
        let id = (v % 0x100) as u8;
        Ok(
            BuilderModel {
                global: GlobalState { report_id: id, ..g },
                has_report_ids: true,
                report_ids: m.report_ids.insert(id),
                ..m
            },
        )
    } else if tag == GLOBAL_REPORT_COUNT {
        Ok(BuilderModel { global: GlobalState { report_count: v, ..g }, ..m })
    } else if tag == GLOBAL_PUSH {
        Ok(BuilderModel { stack: m.stack.push(g), ..m })
    } else if tag == GLOBAL_POP {
        if m.stack.len() == 0 {
            Err(DescriptorError::PopWithoutPush)
        } else {
            Ok(BuilderModel { global: m.stack.last(), stack: m.stack.drop_last(), ..m })
        }
    } else {
        Ok(m)
    }
}

pub open spec fn spec_handle_local(m: BuilderModel, tag: u8, data: Seq<u8>) -> BuilderModel {
    let l = m.local;
    if tag == LOCAL_USAGE {
        BuilderModel {
            local: LocalModel { usages: l.usages.push(spec_decode_usage(data)), ..l },
            ..m
        }
    } else if tag == LOCAL_USAGE_MINIMUM {
        BuilderModel { local: LocalModel { usage_min: Some(spec_decode_usage(data)), ..l }, ..m }
    } else if tag == LOCAL_USAGE_MAXIMUM {
        BuilderModel { local: LocalModel { usage_max: Some(spec_decode_usage(data)), ..l }, ..m }
    } else {
        m
    }
}

/// One short item, dispatched on the type bits of its prefix.
pub open spec fn spec_item(m: BuilderModel, prefix: u8, data: Seq<u8>) -> Result<
    BuilderModel,
    DescriptorError,
> {
    let item_type = (prefix / 4) % 4;
    let tag = prefix / 16;
    if item_type == ITEM_TYPE_MAIN {
        Ok(spec_handle_main(m, tag, data))
    } else if item_type == ITEM_TYPE_GLOBAL {
        spec_handle_global(m, tag, data)
    } else if item_type == ITEM_TYPE_LOCAL {
        Ok(spec_handle_local(m, tag, data))
    } else {
        Ok(m)
    }
}

/// Data bytes of a short item: the two size bits give 0, 1, 2 or 4.
pub open spec fn item_data_size(prefix: u8) -> nat {
    let s = prefix % 4;
    if s == 0 {
        0
    } else if s == 1 {
        1
    } else if s == 2 {
        2
    } else {
        4
    }
}

/// Replays the items of `d` on the parser state `m`. Long items are skipped
/// (to the end of the descriptor at most); a short item must fit.
#[verifier::opaque]
pub open spec fn spec_parse_items(m: BuilderModel, d: Seq<u8>) -> Result<
    BuilderModel,
    DescriptorError,
>
    decreases d.len(),
{
    if d.len() == 0 {
        Ok(m)
    } else {
        let prefix = d[0];
        if prefix == LONG_ITEM_PREFIX {
            if d.len() < 3 {
                Err(DescriptorError::TruncatedLongItem)
            } else {
                let skip = if 3 + d[1] <= d.len() { 3 + d[1] } else { d.len() as int };
                spec_parse_items(m, d.skip(skip))
            }
        } else {
            let size = item_data_size(prefix);
            if 1 + size > d.len() {
                Err(DescriptorError::TruncatedItem)
            } else {
                match spec_item(m, prefix, d.subrange(1, 1 + size as int)) {
                    Ok(next) => spec_parse_items(next, d.skip(1 + size as int)),
                    Err(e) => Err(e),
                }
            }
        }
    }
}

/// The largest bit count laid out for any report id (0 with none).
pub open spec fn max_bits(offsets: Seq<(u8, u32)>) -> u32
    decreases offsets.len(),
{
    if offsets.len() == 0 {
        0
    } else {
        let rest = max_bits(offsets.drop_last());
        if offsets.last().1 > rest {
            offsets.last().1
        } else {
            rest
        }
    }
}

/// The fields and report size that a finished parse defines. A report is as
/// long as the largest report, rounded up to bytes, plus the report id byte.
pub open spec fn spec_finish(m: BuilderModel) -> ParserModel {
    ParserModel {
        has_report_ids: m.has_report_ids,
        input_report_bytes: (max_bits(m.offsets) as nat + 7) / 8 + if m.has_report_ids {
            1nat
        } else {
            0nat
        },
        report_ids: m.report_ids,
        buttons: m.buttons,
        axes: m.axes,
    }
}

/// What a report descriptor defines, or why it is rejected.
pub open spec fn spec_parse_descriptor(d: Seq<u8>) -> Result<ParserModel, DescriptorError> {
    match spec_parse_items(initial_model(), d) {
        Ok(m) => Ok(spec_finish(m)),
        Err(e) => Err(e),
    }
}

/// Every field is at least one bit wide.
pub open spec fn fields_sized(buttons: Seq<ButtonField>, axes: Seq<ValueField>) -> bool {
    &&& forall|i: int| 0 <= i < buttons.len() ==> #[trigger] buttons[i].bit_size >= 1
    &&& forall|i: int| 0 <= i < axes.len() ==> #[trigger] axes[i].bit_size >= 1
}

/// Strictly increasing byte sequence.
pub open spec fn strictly_increasing(s: Seq<u8>) -> bool {
    forall|i: int, j: int| 0 <= i < j < s.len() ==> #[trigger] s[i] < #[trigger] s[j]
}


/// Local item state: the usages collected since the last main item.
#[derive(Clone, Debug)]
struct LocalState {
    usages: Vec<Usage>,
    usage_min: Option<Usage>,
    usage_max: Option<Usage>,
}

impl LocalState {
    fn cleared() -> (l: LocalState)
        ensures
            l.usages@.len() == 0,
            l.usage_min is None,
            l.usage_max is None,
    {
        LocalState { usages: Vec::new(), usage_min: None, usage_max: None }
    }
}

/// Parser state while the items of a descriptor are replayed.
struct DescriptorBuilder {
    global: GlobalState,
    global_stack: Vec<GlobalState>,
    local: LocalState,
    report_bit_offsets: Vec<(u8, u32)>,
    report_id_present: Vec<bool>,
    has_report_ids: bool,
    buttons: Vec<ButtonField>,
    axes: Vec<ValueField>,
}

impl DescriptorBuilder {
    spec fn local_model(&self) -> LocalModel {
        LocalModel {
            usages: self.local.usages@,
            usage_min: self.local.usage_min,
            usage_max: self.local.usage_max,
        }
    }

    spec fn id_set(&self) -> Set<u8> {
        Set::new(|b: u8| self.report_id_present@[b as int])
    }

    spec fn model(&self) -> BuilderModel {
        BuilderModel {
            global: self.global,
            stack: self.global_stack@,
            local: self.local_model(),
            offsets: self.report_bit_offsets@,
            report_ids: self.id_set(),
            has_report_ids: self.has_report_ids,
            buttons: self.buttons@,
            axes: self.axes@,
        }
    }

    spec fn wf(&self) -> bool {
        &&& self.report_id_present@.len() == 256
        &&& unique_ids(self.report_bit_offsets@)
        &&& fields_sized(self.buttons@, self.axes@)
    }

    fn new() -> (b: DescriptorBuilder)
        ensures
            b.wf(),
            b.model() == initial_model(),
    {
        let mut present: Vec<bool> = Vec::new();
        let mut i: usize = 0;
        while i < 256
            invariant
                i <= 256,
                present@.len() == i,
                forall|j: int| 0 <= j < i ==> !#[trigger] present@[j],
            decreases 256 - i,
        {
            present.push(false);
            i = i + 1;
        }
        let b = DescriptorBuilder {
            global: GlobalState::default(),
            global_stack: Vec::new(),
            local: LocalState::cleared(),
            report_bit_offsets: Vec::new(),
            report_id_present: present,
            has_report_ids: false,
            buttons: Vec::new(),
            axes: Vec::new(),
        };
        assert(b.id_set() =~= Set::<u8>::empty());
        assert(b.local_model().usages =~= Seq::<Usage>::empty());
        b
    }

    /// Bits already laid out for the current report id.
    fn current_offset(&self) -> (bits: u32)
        requires
            unique_ids(self.report_bit_offsets@),
        ensures
            bits == offset_of(self.report_bit_offsets@, self.global.report_id),
    {
        let id = self.global.report_id;
        let mut i: usize = 0;
        while i < self.report_bit_offsets.len()
            invariant
                id == self.global.report_id,
                i <= self.report_bit_offsets@.len(),
                unique_ids(self.report_bit_offsets@),
                forall|j: int| 0 <= j < i ==> #[trigger] self.report_bit_offsets@[j].0 != id,
            decreases self.report_bit_offsets@.len() - i,
        {
            let entry = self.report_bit_offsets[i];
            if entry.0 == id {
                proof {
                    let offsets = self.report_bit_offsets@;
                    assert(offsets[i as int].0 == id);
                    assert(has_offset(offsets, id));
                    let k = offset_index(offsets, id);
                    assert(k == i as int);
                    assert(entry == offsets[i as int]);
                    assert(offset_of(offsets, id) == offsets[k].1);
                }
                return entry.1;
            }
            i = i + 1;
        }
        0
    }

    /// Records the bits laid out for the current report id.
    fn set_current_offset(&mut self, bit_offset: u32)
        requires
            unique_ids(old(self).report_bit_offsets@),
        ensures
            final(self).report_bit_offsets@ == set_offset(
                old(self).report_bit_offsets@,
                old(self).global.report_id,
                bit_offset,
            ),
            unique_ids(final(self).report_bit_offsets@),
            final(self).global == old(self).global,
            final(self).global_stack == old(self).global_stack,
            final(self).local == old(self).local,
            final(self).report_id_present == old(self).report_id_present,
            final(self).has_report_ids == old(self).has_report_ids,
            final(self).buttons == old(self).buttons,
            final(self).axes == old(self).axes,
    {
        let id = self.global.report_id;
        let mut i: usize = 0;
        while i < self.report_bit_offsets.len()
            invariant
                self.report_bit_offsets@ == old(self).report_bit_offsets@,
                self.global.report_id == id,
                i <= self.report_bit_offsets@.len(),
                unique_ids(self.report_bit_offsets@),
                forall|j: int| 0 <= j < i ==> #[trigger] self.report_bit_offsets@[j].0 != id,
                self.global == old(self).global,
                self.global_stack == old(self).global_stack,
                self.local == old(self).local,
                self.report_id_present == old(self).report_id_present,
                self.has_report_ids == old(self).has_report_ids,
                self.buttons == old(self).buttons,
                self.axes == old(self).axes,
            decreases self.report_bit_offsets@.len() - i,
        {
            if self.report_bit_offsets[i].0 == id {
                proof {
                    let offsets = self.report_bit_offsets@;
                    assert(offsets[i as int].0 == id);
                    assert(has_offset(offsets, id));
                    let k = offset_index(offsets, id);
                    assert(k == i as int);
                }
                self.report_bit_offsets.set(i, (id, bit_offset));
                assert(unique_ids(self.report_bit_offsets@)) by {
                    let o = old(self).report_bit_offsets@;
                    let n = self.report_bit_offsets@;
                    assert forall|a: int, b: int|
                        0 <= a < n.len() && 0 <= b < n.len() && a != b implies #[trigger] n[a].0
                        != #[trigger] n[b].0 by {
                        assert(n[a].0 == o[a].0);
                        assert(n[b].0 == o[b].0);
                    }
                }
                return;
            }
            i = i + 1;
        }
        proof {
            let offsets = self.report_bit_offsets@;
            assert(!has_offset(offsets, id));
        }
        self.report_bit_offsets.push((id, bit_offset));
    }
}


/// Whether a usage on a page is read as an axis.
pub fn is_axis_usage(usage_page: u16, usage: u16) -> (r: bool)
    ensures
        r == spec_is_axis_usage(usage_page, usage),
{
    (usage_page == USAGE_PAGE_GENERIC_DESKTOP && 0x30 <= usage && usage <= 0x39) || (usage_page
        == USAGE_PAGE_GENERIC_DESKTOP && 0x40 <= usage && usage <= 0x48) || (usage_page
        == USAGE_PAGE_SIMULATION && 0xBB <= usage && usage <= 0xC5)
}

/// Decodes the data of a usage item.
pub fn decode_usage(data: &[u8]) -> (u: Usage)
    requires
        data@.len() <= 4,
    ensures
        u == spec_decode_usage(data@),
{
    let raw = unsigned_value(data);
    if raw > 0xFFFF {
        Usage { page: Some((raw / 0x1_0000) as u16), id: (raw % 0x1_0000) as u16 }
    } else {
        Usage { page: None, id: raw as u16 }
    }
}

impl DescriptorBuilder {
    fn handle_local(&mut self, tag: u8, data: &[u8])
        requires
            old(self).wf(),
            data@.len() <= 4,
        ensures
            final(self).wf(),
            final(self).model() == spec_handle_local(old(self).model(), tag, data@),
    {
        if tag == LOCAL_USAGE {
            let u = decode_usage(data);
            self.local.usages.push(u);
        } else if tag == LOCAL_USAGE_MINIMUM {
            self.local.usage_min = Some(decode_usage(data));
        } else if tag == LOCAL_USAGE_MAXIMUM {
            self.local.usage_max = Some(decode_usage(data));
        }
    }

    fn handle_global(&mut self, tag: u8, data: &[u8]) -> (r: Result<(), DescriptorError>)
        requires
            old(self).wf(),
            data@.len() <= 4,
        ensures
            final(self).wf(),
            match spec_handle_global(old(self).model(), tag, data@) {
                Ok(m) => r is Ok && final(self).model() == m,
                Err(e) => r == Err::<(), DescriptorError>(e),
            },
    {
        if tag == GLOBAL_USAGE_PAGE {
            self.global.usage_page = (unsigned_value(data) % 0x1_0000) as u16;
        } else if tag == GLOBAL_LOGICAL_MINIMUM {
            self.global.logical_min = signed_value(data);
        } else if tag == GLOBAL_LOGICAL_MAXIMUM {
            self.global.logical_max = signed_value(data);
        } else if tag == GLOBAL_REPORT_SIZE {
            self.global.report_size = unsigned_value(data);
        } else if tag == GLOBAL_REPORT_ID {
            let id = (unsigned_value(data) % 0x100) as u8;
            let ghost before = self.id_set();
            self.global.report_id = id;
            self.has_report_ids = true;
            self.report_id_present.set(id as usize, true);
            assert(self.id_set() =~= before.insert(id));
        } else if tag == GLOBAL_REPORT_COUNT {
            self.global.report_count = unsigned_value(data);
        } else if tag == GLOBAL_PUSH {
            let g = self.global;
            self.global_stack.push(g);
        } else if tag == GLOBAL_POP {
            match self.global_stack.pop() {
                Some(g) => {
                    self.global = g;
                },
                None => {
                    return Err(DescriptorError::PopWithoutPush);
                },
            }
        }
        Ok(())
    }
}


/// Cuts or pads `usages` with `fill` to `count` entries.
fn resize_usages(usages: Vec<Usage>, count: usize, fill: Usage) -> (r: Vec<Usage>)
    ensures
        r@ == spec_resize(usages@, count as nat, fill),
{
    let mut usages = usages;
    if count <= usages.len() {
        usages.truncate(count);
        return usages;
    }
    let ghost base = usages@;
    while usages.len() < count
        invariant
            base.len() <= usages@.len() <= count,
            usages@ =~= base + Seq::new((usages@.len() - base.len()) as nat, |_i: int| fill),
        decreases count - usages@.len(),
    {
        usages.push(fill);
    }
    usages
}

/// `x * y`, or `u32::MAX` when the product does not fit.
fn saturating_mul_u32(x: u32, y: u32) -> (r: u32)
    ensures
        r == sat_mul(x, y),
{
    match x.checked_mul(y) {
        Some(v) => v,
        None => u32::MAX,
    }
}

impl DescriptorBuilder {
    /// The usages of the next main item, one per report field.
    fn expand_usages(&self, count: usize) -> (r: Vec<Usage>)
        ensures
            r@ == spec_expand_usages(self.local_model(), count as nat),
    {
        let n = self.local.usages.len();
        if n > 0 {
            let mut usages: Vec<Usage> = Vec::new();
            let mut i: usize = 0;
            while i < n
                invariant
                    n == self.local.usages@.len(),
                    i <= n,
                    usages@ =~= self.local.usages@.take(i as int),
                decreases n - i,
            {
                usages.push(self.local.usages[i]);
                i = i + 1;
            }
            let last = self.local.usages[n - 1];
            return resize_usages(usages, count, last);
        }
        match (self.local.usage_min, self.local.usage_max) {
            (Some(min), Some(max)) => {
                let page = if min.page.is_some() { min.page } else { max.page };
                if min.id > max.id {
                    return Vec::new();
                }
                let mut usages: Vec<Usage> = Vec::new();
                let mut id: u32 = min.id as u32;
                while id <= max.id as u32
                    invariant
                        min.id <= id <= max.id as u32 + 1,
                        usages@ =~= Seq::new(
                            (id - min.id) as nat,
                            |i: int| Usage { page, id: (min.id + i) as u16 },
                        ),
                    decreases max.id as u32 + 1 - id,
                {
                    usages.push(Usage { page, id: id as u16 });
                    id = id + 1;
                }
                resize_usages(usages, count, Usage { page, id: max.id })
            },
            _ => Vec::new(),
        }
    }

    /// Lays out an Input item and, when it is variable, adds its fields.
    fn handle_input(&mut self, flags: u32)
        requires
            old(self).wf(),
        ensures
            final(self).wf(),
            final(self).model() == spec_handle_input(old(self).model(), flags),
    {
        let ghost m = self.model();
        let g = self.global;
        let total_bits = saturating_mul_u32(g.report_size, g.report_count);
        let start_offset = self.current_offset();
        self.set_current_offset(start_offset.saturating_add(total_bits));

        if flags % 2 == 1 {
            self.local = LocalState::cleared();
            assert(self.local_model().usages =~= Seq::<Usage>::empty());
            return;
        }

        let usages = self.expand_usages(g.report_count as usize);
        let variable = (flags / 2) % 2 == 1;

        if variable {
            let ghost b0 = self.buttons@;
            let ghost a0 = self.axes@;
            let mut index: u32 = 0;
            while index < g.report_count
                invariant
                    self.wf(),
                    self.global == g,
                    index <= g.report_count,
                    self.buttons@ == b0 + spec_input_fields(g, usages@, start_offset, index as nat).0,
                    self.axes@ == a0 + spec_input_fields(g, usages@, start_offset, index as nat).1,
                    self.report_bit_offsets@ == set_offset(m.offsets, g.report_id, sat_add(start_offset, total_bits)),
                    self.global_stack@ == m.stack,
                    self.id_set() == m.report_ids,
                    self.has_report_ids == m.has_report_ids,
                    fields_sized(b0, a0),
                decreases g.report_count - index,
            {
                let usage = if (index as usize) < usages.len() {
                    usages[index as usize]
                } else {
                    Usage { page: None, id: 0 }
                };
                let usage_page = match usage.page {
                    Some(p) => p,
                    None => g.usage_page,
                };
                let bit_offset = start_offset.wrapping_add(saturating_mul_u32(index, g.report_size));
                let bit_size = if g.report_size >= 1 { g.report_size } else { 1 };
                let ghost prev = spec_input_fields(g, usages@, start_offset, index as nat);
                assert(usage == usage_or_default(usages@, index as int));
                if usage_page == USAGE_PAGE_BUTTON {
                    self.buttons.push(ButtonField { report_id: g.report_id, bit_offset, bit_size });
                } else if is_axis_usage(usage_page, usage.id) {
                    self.axes.push(
                        ValueField {
                            report_id: g.report_id,
                            bit_offset,
                            bit_size,
                            logical_min: g.logical_min,
                            logical_max: g.logical_max,
                        },
                    );
                }
                index = index + 1;
                assert(self.buttons@ =~= b0 + spec_input_fields(g, usages@, start_offset, index as nat).0);
                assert(self.axes@ =~= a0 + spec_input_fields(g, usages@, start_offset, index as nat).1);
            }
        }
        self.local = LocalState::cleared();
        assert(self.local_model().usages =~= Seq::<Usage>::empty());
    }

    fn handle_main(&mut self, tag: u8, data: &[u8])
        requires
            old(self).wf(),
            data@.len() <= 4,
        ensures
            final(self).wf(),
            final(self).model() == spec_handle_main(old(self).model(), tag, data@),
    {
        if tag == MAIN_INPUT {
            let flags = unsigned_value(data);
            self.handle_input(flags);
        } else {
            self.local = LocalState::cleared();
            assert(self.local_model().usages =~= Seq::<Usage>::empty());
        }
    }
}


impl DescriptorBuilder {
    /// Replays the item that starts at `start` and gives the index after it.
    fn parse_item(&mut self, descriptor: &[u8], start: usize) -> (r: Result<usize, DescriptorError>)
        requires
            old(self).wf(),
            start < descriptor@.len(),
        ensures
            final(self).wf(),
            match r {
                Ok(next) => start < next <= descriptor@.len() && spec_parse_items(
                    old(self).model(),
                    descriptor@.skip(start as int),
                ) == spec_parse_items(final(self).model(), descriptor@.skip(next as int)),
                Err(e) => spec_parse_items(old(self).model(), descriptor@.skip(start as int))
                    == Err::<BuilderModel, DescriptorError>(e),
            },
    {
        let ghost d = descriptor@;
        let ghost rest = d.skip(start as int);
        reveal(spec_parse_items);
        let prefix = descriptor[start];
        assert(rest[0] == prefix);
        let index = start + 1;

        if prefix == LONG_ITEM_PREFIX {
            if descriptor.len() - index < 2 {
                return Err(DescriptorError::TruncatedLongItem);
            }
            let data_size = descriptor[index] as usize;
            assert(rest[1] == data_size);
            let after_header = index + 2;
            let end = after_header.saturating_add(data_size);
            let next = if end < descriptor.len() { end } else { descriptor.len() };
            assert(d.skip(next as int) =~= rest.skip(next - start));
            return Ok(next);
        }

        let data_size: usize = if prefix % 4 == 0 {
            0
        } else if prefix % 4 == 1 {
            1
        } else if prefix % 4 == 2 {
            2
        } else {
            4
        };
        assert(data_size == item_data_size(prefix));
        if descriptor.len() - index < data_size {
            return Err(DescriptorError::TruncatedItem);
        }
        let data = slice_subrange(descriptor, index, index + data_size);
        assert(data@ =~= rest.subrange(1, 1 + data_size as int));
        let next = index + data_size;
        assert(d.skip(next as int) =~= rest.skip(1 + data_size as int));

        let item_type = (prefix / 4) % 4;
        let tag = prefix / 16;
        if item_type == ITEM_TYPE_MAIN {
            self.handle_main(tag, data);
        } else if item_type == ITEM_TYPE_GLOBAL {
            match self.handle_global(tag, data) {
                Ok(()) => {},
                Err(e) => {
                    return Err(e);
                },
            }
        } else if item_type == ITEM_TYPE_LOCAL {
            self.handle_local(tag, data);
        }
        Ok(next)
    }

    /// Replays every item of `descriptor`.
    fn parse(&mut self, descriptor: &[u8]) -> (r: Result<(), DescriptorError>)
        requires
            old(self).wf(),
        ensures
            final(self).wf(),
            match spec_parse_items(old(self).model(), descriptor@) {
                Ok(m) => r is Ok && final(self).model() == m,
                Err(e) => r == Err::<(), DescriptorError>(e),
            },
    {
        let ghost d = descriptor@;
        let ghost goal = spec_parse_items(self.model(), d);
        assert(d.skip(0) =~= d);
        let mut index: usize = 0;
        while index < descriptor.len()
            invariant
                self.wf(),
                d == descriptor@,
                index <= d.len(),
                goal == spec_parse_items(self.model(), d.skip(index as int)),
                goal == spec_parse_items(old(self).model(), d),
            decreases d.len() - index,
        {
            match self.parse_item(descriptor, index) {
                Ok(next) => {
                    index = next;
                },
                Err(e) => {
                    assert(goal == Err::<BuilderModel, DescriptorError>(e));
                    assert(goal == spec_parse_items(old(self).model(), descriptor@));
                    return Err(e);
                },
            }
        }
        assert(d.skip(index as int) =~= Seq::<u8>::empty());
        reveal(spec_parse_items);
        Ok(())
    }
}

/// The bytes `from..to` of a slice.
fn slice_subrange(s: &[u8], from: usize, to: usize) -> (r: &[u8])
    requires
        from <= to <= s@.len(),
    ensures
        r@ == s@.subrange(from as int, to as int),
{
    &s[from..to]
}


/// The buttons that the button fields of report `rid` read from `raw`, in
/// field order; nothing when one of them does not fit in the report.
pub open spec fn spec_decode_buttons(fields: Seq<ButtonField>, raw: Seq<u8>, rid: u8, prefix: u32) -> Option<
    Seq<bool>,
>
    decreases fields.len(),
{
    if fields.len() == 0 {
        Some(Seq::empty())
    } else {
        match spec_decode_buttons(fields.drop_last(), raw, rid, prefix) {
            None => None,
            Some(prev) => {
                let f = fields.last();
                if f.report_id != rid {
                    Some(prev)
                } else {
                    match spec_read_bits(raw, wrap_add(prefix, f.bit_offset), f.bit_size) {
                        Some(v) => Some(prev.push(v != 0)),
                        None => None,
                    }
                }
            },
        }
    }
}

/// An axis field's raw bits as a signed value with its logical range:
/// sign-extended when the range admits negatives.
pub open spec fn spec_axis_value(f: ValueField, raw_value: u32) -> AxisValue {
    AxisValue::Logical {
        value: if f.logical_min < 0 {
            spec_sign_extend(raw_value, f.bit_size)
        } else {
            spec_reinterpret_i32(raw_value)
        },
        logical_min: f.logical_min,
        logical_max: f.logical_max,
    }
}

/// The axes that the axis fields of report `rid` read from `raw`.
pub open spec fn spec_decode_axes(fields: Seq<ValueField>, raw: Seq<u8>, rid: u8, prefix: u32) -> Option<
    Seq<AxisValue>,
>
    decreases fields.len(),
{
    if fields.len() == 0 {
        Some(Seq::empty())
    } else {
        match spec_decode_axes(fields.drop_last(), raw, rid, prefix) {
            None => None,
            Some(prev) => {
                let f = fields.last();
                if f.report_id != rid {
                    Some(prev)
                } else {
                    match spec_read_bits(raw, wrap_add(prefix, f.bit_offset), f.bit_size) {
                        Some(v) => Some(prev.push(spec_axis_value(f, v))),
                        None => None,
                    }
                }
            },
        }
    }
}

/// The report id of a raw report: its first byte when the descriptor
/// declares ids, else 0.
pub open spec fn report_id_of(p: ParserModel, raw: Seq<u8>) -> u8 {
    if p.has_report_ids { raw[0] } else { 0 }
}

/// Bits taken by the report id byte.
pub open spec fn report_prefix_bits(p: ParserModel) -> u32 {
    if p.has_report_ids { 8 } else { 0 }
}

/// What an input report decodes to: nothing for an empty report, for a field
/// that does not fit, or for a report id with no buttons and no axes.
pub open spec fn spec_parse_input_report(p: ParserModel, raw: Seq<u8>) -> Option<
    (Seq<bool>, Seq<AxisValue>),
> {
    if raw.len() == 0 {
        None
    } else {
        let rid = report_id_of(p, raw);
        let prefix = report_prefix_bits(p);
        match (
            spec_decode_buttons(p.buttons, raw, rid, prefix),
            spec_decode_axes(p.axes, raw, rid, prefix),
        ) {
            (Some(b), Some(a)) => if b.len() == 0 && a.len() == 0 {
                None
            } else {
                Some((b, a))
            },
            _ => None,
        }
    }
}

proof fn lemma_buttons_none_extends(fields: Seq<ButtonField>, raw: Seq<u8>, rid: u8, prefix: u32, k: int)
    requires
        0 <= k <= fields.len(),
        spec_decode_buttons(fields.take(k), raw, rid, prefix) is None,
    ensures
        spec_decode_buttons(fields, raw, rid, prefix) is None,
    decreases fields.len() - k,
{
    if k == fields.len() {
        assert(fields.take(k) =~= fields);
    } else {
        assert(fields.take(k + 1).drop_last() =~= fields.take(k));
        lemma_buttons_none_extends(fields, raw, rid, prefix, k + 1);
    }
}

proof fn lemma_axes_none_extends(fields: Seq<ValueField>, raw: Seq<u8>, rid: u8, prefix: u32, k: int)
    requires
        0 <= k <= fields.len(),
        spec_decode_axes(fields.take(k), raw, rid, prefix) is None,
    ensures
        spec_decode_axes(fields, raw, rid, prefix) is None,
    decreases fields.len() - k,
{
    if k == fields.len() {
        assert(fields.take(k) =~= fields);
    } else {
        assert(fields.take(k + 1).drop_last() =~= fields.take(k));
        lemma_axes_none_extends(fields, raw, rid, prefix, k + 1);
    }
}

/// An axis field's raw bits as a signed value with its logical range.
fn axis_value(field: ValueField, raw_value: u32) -> (a: AxisValue)
    ensures
        a == spec_axis_value(field, raw_value),
{
    let value = if field.logical_min < 0 {
        sign_extend(raw_value, field.bit_size)
    } else {
        reinterpret_i32(raw_value)
    };
    AxisValue::Logical { value, logical_min: field.logical_min, logical_max: field.logical_max }
}

/// Sizes, report ids and field counts of a parsed descriptor.
#[derive(Clone, Debug)]
pub struct HidReportShape {
    pub input_report_bytes: usize,
    pub report_ids: Vec<u8>,
    pub button_count: usize,
    pub axis_count: usize,
}

/// The button and axis fields of a report descriptor, ready to decode reports.
#[derive(Debug)]
pub struct HidReportParser {
    has_report_ids: bool,
    input_report_bytes: usize,
    report_ids: Vec<u8>,
    buttons: Vec<ButtonField>,
    axes: Vec<ValueField>,
}

impl View for HidReportParser {
    type V = ParserModel;

    closed spec fn view(&self) -> ParserModel {
        ParserModel {
            has_report_ids: self.has_report_ids,
            input_report_bytes: self.input_report_bytes as nat,
            report_ids: self.report_ids@.to_set(),
            buttons: self.buttons@,
            axes: self.axes@,
        }
    }
}

impl HidReportParser {
    #[verifier::type_invariant]
    spec fn inv(self) -> bool {
        &&& strictly_increasing(self.report_ids@)
        &&& fields_sized(self.buttons@, self.axes@)
    }

    /// Parses a report descriptor into the fields its Input items define.
    pub fn from_descriptor(descriptor: &[u8]) -> (r: Result<HidReportParser, DescriptorError>)
        ensures
            match spec_parse_descriptor(descriptor@) {
                Ok(p) => r is Ok && r.unwrap()@ == p,
                Err(e) => r == Err::<HidReportParser, DescriptorError>(e),
            },
    {
        let mut builder = DescriptorBuilder::new();
        match builder.parse(descriptor) {
            Ok(()) => Ok(builder.finish()),
            Err(e) => Err(e),
        }
    }

    /// Sizes, report ids (ascending) and field counts of the descriptor.
    pub fn shape(&self) -> (s: HidReportShape)
        ensures
            s.input_report_bytes == self@.input_report_bytes,
            s.button_count == self@.buttons.len(),
            s.axis_count == self@.axes.len(),
            strictly_increasing(s.report_ids@),
            s.report_ids@.to_set() == self@.report_ids,
    {
        proof {
            use_type_invariant(self);
        }
        let mut ids: Vec<u8> = Vec::new();
        let mut i: usize = 0;
        while i < self.report_ids.len()
            invariant
                i <= self.report_ids@.len(),
                ids@ =~= self.report_ids@.take(i as int),
            decreases self.report_ids@.len() - i,
        {
            ids.push(self.report_ids[i]);
            i = i + 1;
        }
        assert(ids@ =~= self.report_ids@);
        HidReportShape {
            input_report_bytes: self.input_report_bytes,
            report_ids: ids,
            button_count: self.buttons.len(),
            axis_count: self.axes.len(),
        }
    }

    /// Decodes an input report into its buttons (in field order) and axes
    /// (raw values with their logical ranges).
    pub fn parse_input_report(&self, raw: &[u8]) -> (r: Option<DecodedInput>)
        ensures
            match spec_parse_input_report(self@, raw@) {
                Some((b, a)) => r is Some && r.unwrap().buttons@ == b && r.unwrap().axes@ == a,
                None => r is None,
            },
    {
        if raw.len() == 0 {
            return None;
        }
        let report_id = if self.has_report_ids { raw[0] } else { 0 };
        let prefix: u32 = if self.has_report_ids { 8 } else { 0 };
        assert(report_id == report_id_of(self@, raw@));
        assert(prefix == report_prefix_bits(self@));

        let mut buttons: Vec<bool> = Vec::new();
        let mut i: usize = 0;
        assert(self.buttons@.take(0) =~= Seq::<ButtonField>::empty());
        while i < self.buttons.len()
            invariant
                raw@.len() > 0,
                report_id == report_id_of(self@, raw@),
                prefix == report_prefix_bits(self@),
                i <= self.buttons@.len(),
                spec_decode_buttons(self.buttons@.take(i as int), raw@, report_id, prefix) == Some(
                    buttons@,
                ),
            decreases self.buttons@.len() - i,
        {
            let field = self.buttons[i];
            assert(self.buttons@.take(i + 1).drop_last() =~= self.buttons@.take(i as int));
            if field.report_id == report_id {
                match read_bits(raw, prefix.wrapping_add(field.bit_offset), field.bit_size) {
                    Some(value) => {
                        buttons.push(value != 0);
                    },
                    None => {
                        proof {
                            lemma_buttons_none_extends(self.buttons@, raw@, report_id, prefix, i + 1);
                        }
                        return None;
                    },
                }
            }
            i = i + 1;
        }
        assert(self.buttons@.take(i as int) =~= self.buttons@);

        let mut axes: Vec<AxisValue> = Vec::new();
        let mut j: usize = 0;
        assert(self.axes@.take(0) =~= Seq::<ValueField>::empty());
        while j < self.axes.len()
            invariant
                raw@.len() > 0,
                report_id == report_id_of(self@, raw@),
                prefix == report_prefix_bits(self@),
                spec_decode_buttons(self.buttons@, raw@, report_id, prefix) == Some(buttons@),
                j <= self.axes@.len(),
                spec_decode_axes(self.axes@.take(j as int), raw@, report_id, prefix) == Some(
                    axes@,
                ),
            decreases self.axes@.len() - j,
        {
            let field = self.axes[j];
            assert(self.axes@.take(j + 1).drop_last() =~= self.axes@.take(j as int));
            if field.report_id == report_id {
                match read_bits(raw, prefix.wrapping_add(field.bit_offset), field.bit_size) {
                    Some(raw_value) => {
                        axes.push(axis_value(field, raw_value));
                    },
                    None => {
                        proof {
                            lemma_axes_none_extends(self.axes@, raw@, report_id, prefix, j + 1);
                        }
                        return None;
                    },
                }
            }
            j = j + 1;
        }
        assert(self.axes@.take(j as int) =~= self.axes@);

        if buttons.len() == 0 && axes.len() == 0 {
            None
        } else {
            Some(DecodedInput { buttons, axes })
        }
    }
}

impl DescriptorBuilder {
    /// The largest bit count laid out for any report id.
    fn max_payload_bits(&self) -> (bits: u32)
        ensures
            bits == max_bits(self.report_bit_offsets@),
    {
        let mut best: u32 = 0;
        let mut i: usize = 0;
        assert(self.report_bit_offsets@.take(0) =~= Seq::<(u8, u32)>::empty());
        while i < self.report_bit_offsets.len()
            invariant
                i <= self.report_bit_offsets@.len(),
                best == max_bits(self.report_bit_offsets@.take(i as int)),
            decreases self.report_bit_offsets@.len() - i,
        {
            let entry = self.report_bit_offsets[i];
            assert(self.report_bit_offsets@.take(i + 1).drop_last() =~= self.report_bit_offsets@.take(
                i as int,
            ));
            if entry.1 > best {
                best = entry.1;
            }
            i = i + 1;
        }
        assert(self.report_bit_offsets@.take(i as int) =~= self.report_bit_offsets@);
        best
    }

    /// Ends the parse: sizes the input report and lists the report ids.
    fn finish(self) -> (p: HidReportParser)
        requires
            self.wf(),
        ensures
            p@ == spec_finish(self.model()),
    {
        let max_payload_bits = self.max_payload_bits();
        let payload_bytes = (max_payload_bits / 8) as usize + if max_payload_bits % 8 != 0 {
            1usize
        } else {
            0usize
        };
        let id_byte: usize = if self.has_report_ids { 1 } else { 0 };

        let mut ids: Vec<u8> = Vec::new();
        let mut b: usize = 0;
        while b < 256
            invariant
                b <= 256,
                self.wf(),
                strictly_increasing(ids@),
                forall|k: int| 0 <= k < ids@.len() ==> (#[trigger] ids@[k] as int) < b,
                forall|x: u8| #[trigger] ids@.contains(x) <==> (x < b && self.report_id_present@[x as int]),
            decreases 256 - b,
        {
            if self.report_id_present[b] {
                let ghost old_ids = ids@;
                ids.push(b as u8);
                assert forall|x: u8| #[trigger] ids@.contains(x) <==> (x < b + 1
                    && self.report_id_present@[x as int]) by {
                    if x == b as u8 {
                        assert(ids@[ids@.len() - 1] == x);
                    }
                    if ids@.contains(x) && x != b as u8 {
                        let k = choose|k: int| 0 <= k < ids@.len() && ids@[k] == x;
                        assert(old_ids[k] == x);
                        assert(old_ids.contains(x));
                    }
                    if x < b && self.report_id_present@[x as int] {
                        assert(old_ids.contains(x));
                        let k = choose|k: int| 0 <= k < old_ids.len() && old_ids[k] == x;
                        assert(ids@[k] == x);
                    }
                }
            } else {
                assert forall|x: u8| #[trigger] ids@.contains(x) <==> (x < b + 1
                    && self.report_id_present@[x as int]) by {
                    if x == b as u8 && ids@.contains(x) {
                        let k = choose|k: int| 0 <= k < ids@.len() && ids@[k] == x;
                        assert((ids@[k] as int) < b);
                    }
                }
            }
            b = b + 1;
        }
        assert(ids@.to_set() =~= self.id_set()) by {
            assert forall|x: u8| ids@.to_set().contains(x) <==> self.id_set().contains(x) by {
                assert(ids@.to_set().contains(x) <==> ids@.contains(x));
            }
        }
        assert(strictly_increasing(ids@));
        assert(fields_sized(self.buttons@, self.axes@));
        HidReportParser {
            has_report_ids: self.has_report_ids,
            input_report_bytes: payload_bytes + id_byte,
            report_ids: ids,
            buttons: self.buttons,
            axes: self.axes,
        }
    }
}


/// Recording a bit count for one report id: that id then reads the new count
/// and every other id its old one.
proof fn lemma_set_offset_read(offsets: Seq<(u8, u32)>, id: u8, bits: u32, other: u8)
    requires
        unique_ids(offsets),
    ensures
        unique_ids(set_offset(offsets, id, bits)),
        offset_of(set_offset(offsets, id, bits), id) == bits,
        other != id ==> offset_of(set_offset(offsets, id, bits), other) == offset_of(offsets, other),
{
    let new = set_offset(offsets, id, bits);
    if has_offset(offsets, id) {
        let k = offset_index(offsets, id);
        assert(new == offsets.update(k, (id, bits)));
        assert forall|i: int| 0 <= i < new.len() implies #[trigger] new[i].0 == offsets[i].0 by {}
        assert(new[k].0 == id);
        assert(has_offset(new, id));
        let k2 = offset_index(new, id);
        assert(k2 == k);
        if other != id {
            if has_offset(offsets, other) {
                let ko = offset_index(offsets, other);
                assert(new[ko].0 == other);
                assert(has_offset(new, other));
                let kn = offset_index(new, other);
                assert(offsets[kn].0 == other);
                assert(kn == ko);
            } else {
                if has_offset(new, other) {
                    let kn = offset_index(new, other);
                    assert(offsets[kn].0 == other);
                }
            }
        }
    } else {
        assert(new == offsets.push((id, bits)));
        let n = offsets.len() as int;
        assert(new[n].0 == id);
        assert(has_offset(new, id));
        let k2 = offset_index(new, id);
        assert(k2 == n);
        if other != id {
            if has_offset(offsets, other) {
                let ko = offset_index(offsets, other);
                assert(new[ko].0 == other);
                assert(has_offset(new, other));
                let kn = offset_index(new, other);
                assert(kn == ko);
            } else {
                if has_offset(new, other) {
                    let kn = offset_index(new, other);
                    assert(kn < n);
                    assert(offsets[kn].0 == other);
                }
            }
        }
    }
}

/// Every Input item, constant padding as well as data, lays out
/// `report_size * report_count` bits (saturating) of its report, after the
/// bits laid out before it, and none of any other report; constant and data
/// items lay out bits alike. So a field that follows N padding bits starts
/// N bits later.
pub proof fn lemma_input_item_lays_out_bits(m: BuilderModel, flags: u32, other_flags: u32, other: u8)
    requires
        unique_ids(m.offsets),
    ensures
        offset_of(spec_handle_input(m, flags).offsets, m.global.report_id) == if offset_of(m.offsets, m.global.report_id)
            + m.global.report_size * m.global.report_count > u32::MAX {
            u32::MAX as int
        } else {
            offset_of(m.offsets, m.global.report_id) + m.global.report_size * m.global.report_count
        },
        other != m.global.report_id ==> offset_of(spec_handle_input(m, flags).offsets, other) == offset_of(m.offsets, other),
        spec_handle_input(m, flags).offsets == spec_handle_input(m, other_flags).offsets,
{
    let g = m.global;
    let start = offset_of(m.offsets, g.report_id);
    let total = sat_mul(g.report_size, g.report_count);
    lemma_set_offset_read(m.offsets, g.report_id, sat_add(start, total), other);
    assert(0 <= g.report_size * g.report_count) by (nonlinear_arith);
}

/// An axis field whose logical minimum is negative reads its bits as a
/// two's-complement number of the field's own width: the value differs from
/// the raw bits by a multiple of 2^size and lies in [-2^(size-1), 2^(size-1)).
/// With a non-negative minimum, raw bits below 2^31 are the value.
pub proof fn lemma_axis_value_two_complement(f: ValueField, raw: u32)
    requires
        1 <= f.bit_size <= 32,
        (raw as nat) < pow2(f.bit_size as nat),
    ensures
        spec_axis_value(f, raw) matches AxisValue::Logical { value, logical_min, logical_max } && {
            &&& logical_min == f.logical_min
            &&& logical_max == f.logical_max
            &&& f.logical_min < 0 ==> {
                &&& -pow2((f.bit_size - 1) as nat) <= value < pow2((f.bit_size - 1) as nat)
                &&& (value - raw) % (pow2(f.bit_size as nat) as int) == 0
            }
            &&& f.logical_min >= 0 && raw < 0x8000_0000 ==> value == raw
        },
{
    let b = f.bit_size;
    lemma2_to64();
    lemma_pow2_unfold(b as nat);
    if f.logical_min < 0 {
        let p = pow2(b as nat);
        let h = pow2((b - 1) as nat);
        let v = spec_sign_extend(raw, b);
        vstd::arithmetic::power2::lemma_pow2_pos(b as nat);
        if b >= 32 {
            assert(p == 0x1_0000_0000);
            assert(h == 0x8000_0000);
            if raw >= 0x8000_0000 {
                assert(v == raw - p);
                assert((v - raw) % (p as int) == 0) by {
                    vstd::arithmetic::div_mod::lemma_mod_multiples_basic(-1, p as int);
                    assert(v - raw == (-1) * (p as int));
                }
            } else {
                assert(v == raw);
                assert((v - raw) % (p as int) == 0) by {
                    vstd::arithmetic::div_mod::lemma_mod_multiples_basic(0, p as int);
                }
            }
        } else {
            assert(p == 2 * h);
            assert(h <= 0x4000_0000) by {
                if b - 1 < 30 {
                    vstd::arithmetic::power2::lemma_pow2_strictly_increases((b - 1) as nat, 30);
                }
            }
            assert((raw as nat) % p == raw as nat) by {
                vstd::arithmetic::div_mod::lemma_small_mod(raw as nat, p);
            }
            if raw as nat >= h {
                assert(v == raw - p);
                assert((v - raw) % (p as int) == 0) by {
                    vstd::arithmetic::div_mod::lemma_mod_multiples_basic(-1, p as int);
                    assert(v - raw == (-1) * (p as int));
                }
            } else {
                assert(v == raw);
                assert((v - raw) % (p as int) == 0) by {
                    vstd::arithmetic::div_mod::lemma_mod_multiples_basic(0, p as int);
                }
            }
        }
    }
}

} // verus!
