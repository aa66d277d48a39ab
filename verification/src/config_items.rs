//! The rows of the wizard's configuration list: how they are made, how
//! fields are grouped into section cards, and how the keyboard moves
//! between the rows that can be selected.

use vstd::prelude::*;

use crate::boot_environment::be_base;
use crate::sort::string_views;
use crate::gpu::GfxDriver;
use crate::text::{chars_eq, chars_of, chars_to_string, dec, decimal, extend_str, join_with};

verus! {

/// What a row of the list is.
#[derive(Debug, Clone, Copy, PartialEq, Eq, Structural)]
pub enum ItemType {
    Text,
    Select,
    Password,
    Toggle,
    Readonly,
    Storage,
    Separator,
    Warning,
    SectionHeader,
    RadioHeader,
    RadioSubheader,
    RadioOption,
    Action,
    CompactChoice,
    InlineText,
    InlinePassword,
}

/// One row of the list.
#[derive(Debug)]
pub struct ConfigItem {
    pub key: String,
    pub label: String,
    pub value: String,
    pub description: String,
    pub item_type: ItemType,
    /// The value is a placeholder ("Not set", "Disabled") and reads muted.
    pub is_empty: bool,
    pub is_first_in_section: bool,
    pub is_last_in_section: bool,
    /// Choosing the row destroys data (or the device is unavailable).
    pub destructive: bool,
    /// A chosen device's model, filesystem and label.
    pub detail_model: String,
    /// A chosen device's size.
    pub detail_size: String,
    /// A chosen device's persistent path.
    pub persistent_path: String,
    /// The labels of a compact choice.
    pub choices: Vec<String>,
    /// Which of `choices` is current.
    pub choice_index: i32,
    /// Shown only among the advanced settings.
    pub advanced: bool,
}

impl Default for ConfigItem {
    fn default() -> (r: Self)
        ensures
            r.key@ == Seq::<char>::empty(),
            r.label@ == Seq::<char>::empty(),
            r.value@ == Seq::<char>::empty(),
            r.description@ == Seq::<char>::empty(),
            r.item_type == ItemType::Text,
            !r.is_empty,
            !r.is_first_in_section,
            !r.is_last_in_section,
            !r.destructive,
            r.detail_model@ == Seq::<char>::empty(),
            r.detail_size@ == Seq::<char>::empty(),
            r.persistent_path@ == Seq::<char>::empty(),
            r.choices@ == Seq::<String>::empty(),
            r.choice_index == 0,
        !r.advanced,
    {
        ConfigItem {
            key: String::new(),
            label: String::new(),
            value: String::new(),
            description: String::new(),
            item_type: ItemType::Text,
            is_empty: false,
            is_first_in_section: false,
            is_last_in_section: false,
            destructive: false,
            detail_model: String::new(),
            detail_size: String::new(),
            persistent_path: String::new(),
            choices: Vec::new(),
            choice_index: 0,
        advanced: false,
        }
    }
}

/// A row with its key, label, value and type.
pub fn ci(key: &str, label: &str, value: &str, item_type: ItemType) -> (r: ConfigItem)
    ensures
        r.key@ == key@,
        r.label@ == label@,
        r.value@ == value@,
        r.description@ == Seq::<char>::empty(),
        r.item_type == item_type,
        !r.is_empty,
        !r.is_first_in_section,
        !r.is_last_in_section,
        !r.destructive,
        r.detail_model@ == Seq::<char>::empty(),
        r.detail_size@ == Seq::<char>::empty(),
        r.persistent_path@ == Seq::<char>::empty(),
        r.choices@ == Seq::<String>::empty(),
        r.choice_index == 0,
        !r.advanced,
{
    ConfigItem {
        key: key.to_string(),
        label: label.to_string(),
        value: value.to_string(),
        description: String::new(),
        item_type,
        is_empty: false,
        is_first_in_section: false,
        is_last_in_section: false,
        destructive: false,
        detail_model: String::new(),
        detail_size: String::new(),
        persistent_path: String::new(),
        choices: Vec::new(),
        choice_index: 0,
        advanced: false,
    }
}

/// A row whose value may be unset: `None` shows as "Not set" and is
/// marked empty, so the value reads muted without matching the words.
pub fn ci_opt(key: &str, label: &str, value: Option<&str>, item_type: ItemType) -> (r: ConfigItem)
    ensures
        r.key@ == key@,
        r.label@ == label@,
        r.value@ == match value {
            Some(v) => v@,
            None => "Not set"@,
        },
        r.description@ == Seq::<char>::empty(),
        r.item_type == item_type,
        r.is_empty == value.is_none(),
        !r.is_first_in_section,
        !r.is_last_in_section,
{
    let (display, is_empty) = match value {
        Some(v) => (v, false),
        None => ("Not set", true),
    };
    let mut r = ci(key, label, display, item_type);
    r.is_empty = is_empty;
    r
}

/// A toggle row: "Enabled", or "Disabled" marked empty.
pub fn ci_toggle(key: &str, label: &str, enabled: bool) -> (r: ConfigItem)
    ensures
        r.key@ == key@,
        r.label@ == label@,
        r.value@ == if enabled {
            "Enabled"@
        } else {
            "Disabled"@
        },
        r.description@ == Seq::<char>::empty(),
        r.item_type == ItemType::Toggle,
        r.is_empty == !enabled,
        !r.is_first_in_section,
        !r.is_last_in_section,
{
    let mut r = ci(
        key,
        label,
        if enabled {
            "Enabled"
        } else {
            "Disabled"
        },
        ItemType::Toggle,
    );
    r.is_empty = !enabled;
    r
}

/// A separator row.
pub fn sep() -> (r: ConfigItem)
    ensures
        r.key@ == Seq::<char>::empty(),
        r.label@ == Seq::<char>::empty(),
        r.value@ == Seq::<char>::empty(),
        r.item_type == ItemType::Separator,
        !r.is_empty,
        !r.is_first_in_section,
        !r.is_last_in_section,
{
    proof {
        reveal_strlit("");
    }
    ci("", "", "", ItemType::Separator)
}

/// A section header row with its label.
pub fn section_header(label: &str) -> (r: ConfigItem)
    ensures
        r.key@ == Seq::<char>::empty(),
        r.label@ == label@,
        r.value@ == Seq::<char>::empty(),
        r.item_type == ItemType::SectionHeader,
        !r.is_empty,
        !r.is_first_in_section,
        !r.is_last_in_section,
        row_view(r) == header_row(seq![], label@),
        r.choices@ == Seq::<String>::empty(),
        r.choice_index == 0,
        !r.advanced,
{
    proof {
        reveal_strlit("");
    }
    ci("", label, "", ItemType::SectionHeader)
}

/// The row types that belong to a section card.
pub open spec fn is_field(t: ItemType) -> bool {
    t == ItemType::Text || t == ItemType::Select || t == ItemType::Password || t
        == ItemType::Toggle || t == ItemType::RadioSubheader || t == ItemType::RadioOption || t
        == ItemType::Readonly
}

fn field(t: ItemType) -> (r: bool)
    ensures
        r == is_field(t),
{
    match t {
        ItemType::Text | ItemType::Select | ItemType::Password | ItemType::Toggle
        | ItemType::RadioSubheader | ItemType::RadioOption | ItemType::Readonly => true,
        _ => false,
    }
}

/// Whether field row `i` opens its card: nothing before it, or a row that
/// is not a field.
pub open spec fn opens_section(ts: Seq<ConfigItem>, i: int) -> bool {
    i == 0 || !is_field(ts[i - 1].item_type)
}

/// Whether field row `i` closes its card.
pub open spec fn closes_section(ts: Seq<ConfigItem>, i: int) -> bool {
    i + 1 == ts.len() || !is_field(ts[i + 1].item_type)
}

/// Row `i` as `mark_section_boundaries` leaves it: a field row with its
/// two marks set, any other row unchanged.
pub open spec fn marked_row(ts: Seq<ConfigItem>, i: int) -> ConfigItem {
    if is_field(ts[i].item_type) {
        ConfigItem {
            is_first_in_section: opens_section(ts, i),
            is_last_in_section: closes_section(ts, i),
            ..ts[i]
        }
    } else {
        ts[i]
    }
}

/// Mark where each card of consecutive field rows begins and ends. Rows
/// that are not fields, and everything but the two marks, stay as they are.
pub fn mark_section_boundaries(items: &mut Vec<ConfigItem>)
    ensures
        final(items).len() == old(items).len(),
        forall|i: int|
            0 <= i < old(items).len() ==> #[trigger] final(items)@[i] == marked_row(old(items)@, i),
{
    let ghost orig = items@;
    let n = items.len();
    let mut fields: Vec<bool> = Vec::new();
    let mut i: usize = 0;
    while i < n
        invariant
            n == items.len(),
            i <= n,
            fields.len() == i,
            forall|j: int| 0 <= j < i ==> fields@[j] == is_field(items@[j].item_type),
        decreases n - i,
    {
        fields.push(field(items[i].item_type));
        i = i + 1;
    }
    let mut out: Vec<ConfigItem> = Vec::new();
    let mut k: usize = 0;
    while items.len() > 0
        invariant
            k + items.len() == n,
            orig.len() == n,
            fields.len() == n,
            forall|j: int| 0 <= j < n ==> fields@[j] == is_field(orig[j].item_type),
            items@ == orig.skip(k as int),
            out.len() == k,
            forall|i: int| 0 <= i < k ==> #[trigger] out@[i] == marked_row(orig, i),
        decreases items.len(),
    {
        let ghost before = items@;
        let mut it = items.remove(0);
        assert(it == orig[k as int]);
        assert(items@ =~= orig.skip(k + 1));
        if fields[k] {
            it.is_first_in_section = k == 0 || !fields[k - 1];
            it.is_last_in_section = k + 1 == n || !fields[k + 1];
        }
        assert(it == marked_row(orig, k as int));
        out.push(it);
        k = k + 1;
    }
    *items = out;
}

/// Rows the keyboard can land on: not a storage row without a device,
/// a separator, read-only text, a warning or a header of any kind.
pub open spec fn is_selectable(item: ConfigItem) -> bool {
    let t = item.item_type;
    !(t == ItemType::Storage && item.key@.len() == 0) && t != ItemType::Separator && t
        != ItemType::Readonly && t != ItemType::Warning && t != ItemType::SectionHeader && t
        != ItemType::RadioHeader && t != ItemType::RadioSubheader
}

/// The position `k` steps from `current` in direction `dir`, wrapping.
pub open spec fn wrapped(current: int, dir: int, k: int, len: int) -> int {
    (current + dir * k) % len
}

/// The first selectable row at `k`, `k + 1`, … `len` steps away, or
/// `current` when there is none.
pub open spec fn search_from(items: Seq<ConfigItem>, current: int, dir: int, k: int) -> int
    decreases items.len() + 1 - k,
{
    if k < 1 || k > items.len() {
        current
    } else if is_selectable(items[wrapped(current, dir, k, items.len() as int)]) {
        wrapped(current, dir, k, items.len() as int)
    } else {
        search_from(items, current, dir, k + 1)
    }
}

/// `x` modulo `len`, in `0..len`.
fn euclid_mod(x: i64, len: i64) -> (r: i64)
    requires
        len > 0,
        x > i64::MIN,
    ensures
        r == (x as int) % (len as int),
        0 <= r < len,
{
    let m = len as u64;
    if x >= 0 {
        let q = (x as u64) % m;
        proof {
            vstd::arithmetic::div_mod::lemma_fundamental_div_mod(x as int, len as int);
        }
        q as i64
    } else {
        let y = (-x) as u64;
        let q = y % m;
        let ghost a = (y / m) as int;
        proof {
            vstd::arithmetic::div_mod::lemma_fundamental_div_mod(y as int, len as int);
            assert(y == m * a + q);
        }
        if q == 0 {
            proof {
                assert(x == (-a) * len + 0) by (nonlinear_arith)
                    requires
                        x == -(y as int),
                        y == m * a + q,
                        q == 0,
                        m == len,
                ;
                vstd::arithmetic::div_mod::lemma_fundamental_div_mod_converse(
                    x as int,
                    len as int,
                    -a,
                    0,
                );
            }
            0
        } else {
            proof {
                assert(x == (-a - 1) * len + (len - q)) by (nonlinear_arith)
                    requires
                        x == -(y as int),
                        y == m * a + q,
                        m == len,
                ;
                vstd::arithmetic::div_mod::lemma_fundamental_div_mod_converse(
                    x as int,
                    len as int,
                    -a - 1,
                    len - q,
                );
            }
            len - (q as i64)
        }
    }
}

/// Find the next selectable row from `current` in direction `dir`,
/// wrapping around the list: -1 for an empty list, `current` when no row
/// can be selected. Positions are computed without overflow whatever the
/// direction's size.
pub fn next_selectable_index(items: &Vec<ConfigItem>, current: i32, dir: i32) -> (r: i32)
    requires
        items.len() <= i32::MAX,
    ensures
        items.len() == 0 ==> r == -1,
        items.len() > 0 ==> r == search_from(items@, current as int, dir as int, 1),
{
    let len = items.len() as i64;
    if len == 0 {
        return -1;
    }
    let mut offset: i64 = 1;
    while offset <= len
        invariant
            len == items.len(),
            0 < len <= i32::MAX,
            1 <= offset <= len + 1,
            search_from(items@, current as int, dir as int, 1) == search_from(
                items@,
                current as int,
                dir as int,
                offset as int,
            ),
        decreases len + 1 - offset,
    {
        assert(-0x8000_0000 * 0x8000_0000 <= dir * offset <= 0x8000_0000 * 0x8000_0000)
            by (nonlinear_arith)
            requires
                -0x8000_0000 <= dir <= 0x7fff_ffff,
                1 <= offset <= 0x7fff_ffff,
        ;
        let x = current as i64 + (dir as i64) * offset;
        let idx = euclid_mod(x, len);
        let item = &items[idx as usize];
        let t = item.item_type;
        let blank_storage = match t {
            ItemType::Storage => item.key.as_str().is_empty(),
            _ => false,
        };
        let skipped = match t {
            ItemType::Separator | ItemType::Readonly | ItemType::Warning
            | ItemType::SectionHeader | ItemType::RadioHeader | ItemType::RadioSubheader => true,
            _ => false,
        };
        if !blank_storage && !skipped {
            return idx as i32;
        }
        offset = offset + 1;
    }
    current
}


// ── The review page ──

/// What a row shows: its key, label, value and description, its type,
/// whether the value is a placeholder, and a chosen device's model, size
/// and persistent path.
pub type RowView = (Seq<char>, Seq<char>, Seq<char>, Seq<char>, ItemType, bool, Seq<char>, Seq<char>, Seq<char>);

pub open spec fn row_view(c: ConfigItem) -> RowView {
    (
        c.key@,
        c.label@,
        c.value@,
        c.description@,
        c.item_type,
        c.is_empty,
        c.detail_model@,
        c.detail_size@,
        c.persistent_path@,
    )
}

pub open spec fn row_views(s: Seq<ConfigItem>) -> Seq<RowView> {
    s.map_values(|c: ConfigItem| row_view(c))
}

/// A row that belongs to a radio group after its header.
pub open spec fn in_radio_group(t: ItemType) -> bool {
    t == ItemType::RadioOption || t == ItemType::RadioSubheader
}

/// Where the rows of a radio group that continue at `i` end: the first row
/// from `i` on that is neither an option nor a subheader.
pub open spec fn group_end(items: Seq<ConfigItem>, i: int) -> int
    decreases items.len() - i,
{
    if i < 0 || i >= items.len() || !in_radio_group(items[i].item_type) {
        i
    } else {
        group_end(items, i + 1)
    }
}

/// A radio group ends at or after where it continues, at a row outside it.
pub proof fn lemma_group_end(items: Seq<ConfigItem>, i: int)
    requires
        0 <= i,
    ensures
        i <= group_end(items, i),
        group_end(items, i) <= items.len() || group_end(items, i) == i,
        group_end(items, i) >= items.len() || !in_radio_group(items[group_end(items, i)].item_type),
    decreases items.len() - i,
{
    if i < items.len() && in_radio_group(items[i].item_type) {
        lemma_group_end(items, i + 1);
    }
}

/// The option a radio group has selected: an option row whose value is
/// `selected`.
pub open spec fn is_selected_option(c: ConfigItem) -> bool {
    c.item_type == ItemType::RadioOption && c.value@ == "selected"@
}

/// The last selected option among rows `from..to`.
pub open spec fn selected_in(items: Seq<ConfigItem>, from: int, to: int) -> Option<ConfigItem>
    decreases to - from,
{
    if to <= from {
        None
    } else if is_selected_option(items[to - 1]) {
        Some(items[to - 1])
    } else {
        selected_in(items, from, to - 1)
    }
}

/// A radio group on the review page: one read-only row, `Group: option`,
/// carrying the selected option's device details; "Not set" without one.
pub open spec fn group_row(header: ConfigItem, selected: Option<ConfigItem>) -> RowView {
    match selected {
        Some(o) => (
            seq![],
            header.label@,
            o.label@,
            seq![],
            ItemType::Readonly,
            o.is_empty,
            o.detail_model@,
            o.detail_size@,
            o.persistent_path@,
        ),
        None => (seq![], header.label@, "Not set"@, seq![], ItemType::Readonly, true, seq![], seq![], seq![]),
    }
}

/// What the review page shows of a passphrase entry: whether it is set,
/// never the passphrase.
pub open spec fn passphrase_state(password_set: bool) -> Seq<char> {
    if password_set {
        "Set"@
    } else {
        "Required"@
    }
}

/// Any other row, read-only on the review page; a passphrase entry shows
/// only whether it is set.
pub open spec fn copied_row(item: ConfigItem, password_set: bool) -> RowView {
    (
        item.key@,
        item.label@,
        if item.item_type == ItemType::InlinePassword {
            passphrase_state(password_set)
        } else {
            item.value@
        },
        item.description@,
        ItemType::Readonly,
        item.is_empty,
        seq![],
        seq![],
        seq![],
    )
}

/// The review page's rows for a step's rows from `i` on: each radio group
/// collapsed into one row, section headers and storage rows dropped, every
/// other row copied read-only.
pub open spec fn review_rows(items: Seq<ConfigItem>, i: int, password_set: bool) -> Seq<RowView>
    decreases items.len() - i,
{
    if i < 0 || i >= items.len() {
        seq![]
    } else if items[i].item_type == ItemType::RadioHeader {
        let e = group_end(items, i + 1);
        proof {
            lemma_group_end(items, i + 1);
        }
        seq![group_row(items[i], selected_in(items, i + 1, e))] + review_rows(items, e, password_set)
    } else if items[i].item_type == ItemType::SectionHeader || items[i].item_type == ItemType::Storage {
        review_rows(items, i + 1, password_set)
    } else {
        seq![copied_row(items[i], password_set)] + review_rows(items, i + 1, password_set)
    }
}

/// A read-only row made of the given parts; the rest as in a new row.
fn readonly_row(
    key: &str,
    label: &str,
    value: &str,
    description: &str,
    is_empty: bool,
    detail_model: &str,
    detail_size: &str,
    persistent_path: &str,
) -> (r: ConfigItem)
    ensures
        row_view(r) == (
            key@,
            label@,
            value@,
            description@,
            ItemType::Readonly,
            is_empty,
            detail_model@,
            detail_size@,
            persistent_path@,
        ),
        r.choices@ == Seq::<String>::empty(),
        r.choice_index == 0,
        !r.advanced,
{
    let mut r = ci(key, label, value, ItemType::Readonly);
    r.description = description.to_string();
    r.is_empty = is_empty;
    r.detail_model = detail_model.to_string();
    r.detail_size = detail_size.to_string();
    r.persistent_path = persistent_path.to_string();
    r
}

fn row_type_is(t: ItemType, u: ItemType) -> (r: bool)
    ensures
        r == (t == u),
{
    t == u
}

/// A step's rows as the review page shows them (see `review_rows`).
pub fn review_step_rows(items: &Vec<ConfigItem>, password_set: bool) -> (r: Vec<ConfigItem>)
    ensures
        row_views(r@) == review_rows(items@, 0, password_set),
{
    let mut out: Vec<ConfigItem> = Vec::new();
    push_review_rows(&mut out, items, password_set);
    assert(row_views(out@) =~= Seq::<RowView>::empty() + review_rows(items@, 0, password_set));
    out
}

/// Add a step's rows as the review page shows them to `out`.
fn push_review_rows(out: &mut Vec<ConfigItem>, items: &Vec<ConfigItem>, password_set: bool)
    ensures
        row_views(final(out)@) == row_views(old(out)@) + review_rows(items@, 0, password_set),
{
    let ghost base = row_views(out@);
    let n = items.len();
    let mut i: usize = 0;
    proof {
        reveal_strlit("");
    }
    while i < n
        invariant
            n == items.len(),
            i <= n,
            row_views(out@) + review_rows(items@, i as int, password_set) == base + review_rows(items@, 0, password_set),
        decreases n - i,
    {
        proof {
            reveal_strlit("");
        }
        let t = items[i].item_type;
        if row_type_is(t, ItemType::RadioHeader) {
            let mut j = i + 1;
            let mut sel: Option<usize> = None;
            while j < n && (row_type_is(items[j].item_type, ItemType::RadioOption) || row_type_is(
                items[j].item_type,
                ItemType::RadioSubheader,
            ))
                invariant
                    n == items.len(),
                    i < j <= n,
                    group_end(items@, j as int) == group_end(items@, i + 1),
                    match sel {
                        Some(k) => i + 1 <= k < j && selected_in(items@, i + 1, j as int) == Some(items@[k as int]),
                        None => selected_in(items@, i + 1, j as int) == None::<ConfigItem>,
                    },
                decreases n - j,
            {
                if row_type_is(items[j].item_type, ItemType::RadioOption) && chars_eq(
                    &chars_of(items[j].value.as_str()),
                    &chars_of("selected"),
                ) {
                    sel = Some(j);
                }
                j = j + 1;
            }
            assert(group_end(items@, j as int) == j);
            let row = match sel {
                Some(k) => readonly_row(
                    "",
                    items[i].label.as_str(),
                    items[k].label.as_str(),
                    "",
                    items[k].is_empty,
                    items[k].detail_model.as_str(),
                    items[k].detail_size.as_str(),
                    items[k].persistent_path.as_str(),
                ),
                None => readonly_row("", items[i].label.as_str(), "Not set", "", true, "", "", ""),
            };
            assert(row_view(row) == group_row(items@[i as int], selected_in(items@, i + 1, j as int)));
            let ghost before = out@;
            out.push(row);
            assert(row_views(out@) =~= row_views(before) + seq![row_view(row)]);
            assert(review_rows(items@, i as int, password_set) == seq![row_view(row)] + review_rows(
                items@,
                j as int,
                password_set,
            ));
            assert(row_views(out@) + review_rows(items@, j as int, password_set) =~= row_views(before)
                + review_rows(items@, i as int, password_set));
            i = j;
        } else if row_type_is(t, ItemType::SectionHeader) || row_type_is(t, ItemType::Storage) {
            i = i + 1;
        } else {
            let value = if row_type_is(t, ItemType::InlinePassword) {
                if password_set {
                    "Set"
                } else {
                    "Required"
                }
            } else {
                items[i].value.as_str()
            };
            let row = readonly_row(
                items[i].key.as_str(),
                items[i].label.as_str(),
                value,
                items[i].description.as_str(),
                items[i].is_empty,
                "",
                "",
                "",
            );
            assert(row_view(row) == copied_row(items@[i as int], password_set));
            let ghost before = out@;
            out.push(row);
            assert(row_views(out@) =~= row_views(before) + seq![row_view(row)]);
            assert(row_views(out@) + review_rows(items@, i + 1, password_set) =~= row_views(before)
                + review_rows(items@, i as int, password_set));
            i = i + 1;
        }
    }
    assert(row_views(out@) =~= row_views(out@) + review_rows(items@, n as int, password_set));
}


/// A section header row's view, with its key.
pub open spec fn header_row(key: Seq<char>, label: Seq<char>) -> RowView {
    (key, label, seq![], seq![], ItemType::SectionHeader, false, seq![], seq![], seq![])
}

/// A warning row's view.
pub open spec fn warning_row(text: Seq<char>) -> RowView {
    (seq![], seq![], text, seq![], ItemType::Warning, false, seq![], seq![], seq![])
}

/// A storage row as the review page lists it: without its key, so that
/// it cannot be activated there.
pub open spec fn unkeyed(c: ConfigItem) -> RowView {
    let v = row_view(c);
    (seq![], v.1, v.2, v.3, v.4, v.5, v.6, v.7, v.8)
}

/// The storage rows among `rows`, unkeyed, in order.
pub open spec fn storage_rows(rows: Seq<ConfigItem>) -> Seq<RowView>
    decreases rows.len(),
{
    if rows.len() == 0 {
        seq![]
    } else {
        storage_rows(rows.drop_last()) + if rows.last().item_type == ItemType::Storage {
            seq![unkeyed(rows.last())]
        } else {
            seq![]
        }
    }
}

/// The label of wizard step `s`.
pub open spec fn step_label(s: int) -> Seq<char> {
    if s == 2 {
        "ZFS"@
    } else if s == 3 {
        "System"@
    } else if s == 4 {
        "Users"@
    } else {
        "Desktop"@
    }
}

/// The key that takes the review page back to step `s`.
pub open spec fn edit_key(s: int) -> Seq<char> {
    "edit:"@ + seq![(48 + s) as char]
}

/// The review page for the steps' rows `steps` (the ZFS, System, Users and
/// Desktop steps, in order), from `k` on.
pub open spec fn review_steps(steps: Seq<Seq<ConfigItem>>, k: int, password_set: bool) -> Seq<RowView>
    decreases steps.len() - k,
{
    if k < 0 || k >= steps.len() {
        seq![]
    } else {
        seq![header_row(edit_key(k + 2), step_label(k + 2))] + review_rows(steps[k], 0, password_set)
            + review_steps(steps, k + 1, password_set)
    }
}

/// What the review page lists: the problems that block the installation,
/// under a header, when there are any; the storage changes (the disk
/// step's storage rows, then the swap partition where a new or existing
/// pool puts swap on a partition); the boot environment to create; then
/// each later step under its own header, read-only (see `review_rows`).
pub open spec fn review_page(
    errors: Seq<Seq<char>>,
    disk_rows: Seq<ConfigItem>,
    swap_row: Option<ConfigItem>,
    boot_environment: Seq<char>,
    steps: Seq<Seq<ConfigItem>>,
    password_set: bool,
) -> Seq<RowView> {
    (if errors.len() > 0 {
        seq![header_row(seq![], "Complete setup before installing"@)] + errors.map_values(
            |e: Seq<char>| warning_row(e),
        )
    } else {
        seq![]
    }) + seq![header_row("edit:1"@, "Storage changes during installation"@)] + storage_rows(disk_rows)
        + match swap_row {
        Some(c) => seq![unkeyed(c)],
        None => seq![],
    } + seq![
        (
            seq![],
            "Boot environment"@,
            boot_environment,
            "Create this environment and its child datasets"@,
            ItemType::Readonly,
            false,
            seq![],
            seq![],
            seq![],
        ),
    ] + review_steps(steps, 0, password_set)
}

/// The boot environment the review names: `pool/prefix`, with `?` for a
/// pool not named yet.
pub open spec fn review_boot_environment(pool: Option<Seq<char>>, prefix: Seq<char>) -> Seq<char> {
    match pool {
        Some(p) => be_base(p, prefix),
        None => be_base("?"@, prefix),
    }
}

fn push_view(out: &mut Vec<ConfigItem>, row: ConfigItem)
    ensures
        row_views(final(out)@) == row_views(old(out)@) + seq![row_view(row)],
{
    let ghost before = out@;
    out.push(row);
    assert(row_views(out@) =~= row_views(before) + seq![row_view(row)]);
}

fn with_key(c: &ConfigItem, key: &str) -> (r: ConfigItem)
    ensures
        row_view(r) == ({
            let v = row_view(*c);
            (key@, v.1, v.2, v.3, v.4, v.5, v.6, v.7, v.8)
        }),
{
    let mut r = readonly_row(
        key,
        c.label.as_str(),
        c.value.as_str(),
        c.description.as_str(),
        c.is_empty,
        c.detail_model.as_str(),
        c.detail_size.as_str(),
        c.persistent_path.as_str(),
    );
    r.item_type = c.item_type;
    r
}

fn step_label_of(k: usize) -> (r: &'static str)
    requires
        k < 4,
    ensures
        r@ == step_label(k + 2),
{
    if k == 0 {
        "ZFS"
    } else if k == 1 {
        "System"
    } else if k == 2 {
        "Users"
    } else {
        "Desktop"
    }
}

fn edit_key_of(k: usize) -> (r: String)
    requires
        k < 4,
    ensures
        r@ == edit_key(k + 2),
{
    let mut v = chars_of("edit:");
    let d: char = if k == 0 {
        '2'
    } else if k == 1 {
        '3'
    } else if k == 2 {
        '4'
    } else {
        '5'
    };
    v.push(d);
    assert(d == (48 + k + 2) as char);
    chars_to_string(&v)
}

/// The rows of the review page (see `review_page`). `steps` are the rows
/// of the ZFS, System, Users and Desktop steps; `swap_row` is the swap
/// partition's storage row, listed when `pool_mode_swap_partition` (a new
/// or existing pool with swap on a partition); `password_set` whether the
/// encryption passphrase is set.
pub fn review_items(
    errors: &Vec<String>,
    disk_rows: &Vec<ConfigItem>,
    swap_row: &ConfigItem,
    pool_mode_swap_partition: bool,
    pool: Option<&str>,
    prefix: &str,
    steps: &Vec<Vec<ConfigItem>>,
    password_set: bool,
) -> (r: Vec<ConfigItem>)
    requires
        steps.len() == 4,
    ensures
        row_views(r@) == review_page(
            errors@.map_values(|e: String| e@),
            disk_rows@,
            if pool_mode_swap_partition {
                Some(*swap_row)
            } else {
                None
            },
            review_boot_environment(
                match pool {
                    Some(p) => Some(p@),
                    None => None,
                },
                prefix@,
            ),
            steps@.map_values(|s: Vec<ConfigItem>| s@),
            password_set,
        ),
{
    proof {
        reveal_strlit("");
    }
    let mut out: Vec<ConfigItem> = Vec::new();
    let ghost ev = errors@.map_values(|e: String| e@);
    if errors.len() > 0 {
        push_view(&mut out, section_header("Complete setup before installing"));
        assert(ev.take(0).map_values(|e: Seq<char>| warning_row(e)) =~= Seq::<RowView>::empty());
        for i in 0..errors.len()
            invariant
                ev == errors@.map_values(|e: String| e@),
                row_views(out@) == seq![header_row(seq![], "Complete setup before installing"@)]
                    + ev.take(i as int).map_values(|e: Seq<char>| warning_row(e)),
        {
            proof {
                reveal_strlit("");
            }
            let ghost before = row_views(out@);
            let row = ci("", "", errors[i].as_str(), ItemType::Warning);
            assert(row_view(row) == warning_row(ev[i as int]));
            push_view(&mut out, row);
            assert(ev.take(i + 1).map_values(|e: Seq<char>| warning_row(e)) =~= ev.take(i as int).map_values(
                |e: Seq<char>| warning_row(e),
            ).push(warning_row(ev[i as int])));
        }
        assert(ev.take(errors.len() as int) =~= ev);
    }
    let ghost part1 = row_views(out@);
    assert(part1 =~= (if ev.len() > 0 {
        seq![header_row(seq![], "Complete setup before installing"@)] + ev.map_values(
            |e: Seq<char>| warning_row(e),
        )
    } else {
        seq![]
    }));
    let sh = with_key(&section_header("Storage changes during installation"), "edit:1");
    assert(row_view(sh) == header_row("edit:1"@, "Storage changes during installation"@));
    push_view(&mut out, sh);
    let ghost part2 = row_views(out@);
    for i in 0..disk_rows.len()
        invariant
            row_views(out@) == part2 + storage_rows(disk_rows@.take(i as int)),
    {
        proof {
            reveal_strlit("");
        }
        assert(disk_rows@.take(i + 1).drop_last() =~= disk_rows@.take(i as int));
        assert(disk_rows@.take(i + 1).last() == disk_rows@[i as int]);
        if row_type_is(disk_rows[i].item_type, ItemType::Storage) {
            let row = with_key(&disk_rows[i], "");
            assert(row_view(row) == unkeyed(disk_rows@[i as int]));
            push_view(&mut out, row);
            assert(row_views(out@) =~= part2 + storage_rows(disk_rows@.take(i + 1)));
        } else {
            assert(row_views(out@) =~= part2 + storage_rows(disk_rows@.take(i + 1)));
        }
    }
    assert(disk_rows@.take(disk_rows.len() as int) =~= disk_rows@);
    let ghost part4 = row_views(out@);
    if pool_mode_swap_partition {
        let row = with_key(swap_row, "");
        assert(row_view(row) == unkeyed(*swap_row));
        push_view(&mut out, row);
    } else {
        assert(row_views(out@) =~= part4 + Seq::<RowView>::empty());
    }
    let ghost part5 = row_views(out@);
    proof {
        reveal_strlit("");
    }
    let be = match pool {
        Some(p) => crate::boot_environment::BootEnvironment::new(p, prefix).base(),
        None => crate::boot_environment::BootEnvironment::new("?", prefix).base(),
    };
    let be_row = readonly_row(
        "",
        "Boot environment",
        be.as_str(),
        "Create this environment and its child datasets",
        false,
        "",
        "",
        "",
    );
    assert(""@ =~= Seq::<char>::empty());
    assert(row_view(be_row) == (
        Seq::<char>::empty(),
        "Boot environment"@,
        be@,
        "Create this environment and its child datasets"@,
        ItemType::Readonly,
        false,
        Seq::<char>::empty(),
        Seq::<char>::empty(),
        Seq::<char>::empty(),
    ));
    push_view(&mut out, be_row);
    let ghost part3 = row_views(out@);
    assert(part3 =~= part5 + seq![
        (
            seq![],
            "Boot environment"@,
            be@,
            "Create this environment and its child datasets"@,
            ItemType::Readonly,
            false,
            seq![],
            seq![],
            seq![],
        ),
    ]);
    let ghost pv = match pool {
        Some(p) => Some(p@),
        None => None,
    };
    assert(be@ == review_boot_environment(pv, prefix@));
    assert(part3 =~= part1 + seq![header_row("edit:1"@, "Storage changes during installation"@)]
        + storage_rows(disk_rows@) + match (if pool_mode_swap_partition {
        Some(*swap_row)
    } else {
        None
    }) {
        Some(c) => seq![unkeyed(c)],
        None => seq![],
    } + seq![
        (
            seq![],
            "Boot environment"@,
            review_boot_environment(pv, prefix@),
            "Create this environment and its child datasets"@,
            ItemType::Readonly,
            false,
            seq![],
            seq![],
            seq![],
        ),
    ]);
    let ghost sv = steps@.map_values(|s: Vec<ConfigItem>| s@);
    for k in 0..steps.len()
        invariant
            steps.len() == 4,
            sv == steps@.map_values(|s: Vec<ConfigItem>| s@),
            row_views(out@) + review_steps(sv, k as int, password_set) == part3 + review_steps(sv, 0, password_set),
    {
        let ghost before = row_views(out@);
        let key = edit_key_of(k);
        let header = with_key(&section_header(step_label_of(k)), key.as_str());
        assert(row_view(header) == header_row(edit_key(k + 2), step_label(k + 2)));
        push_view(&mut out, header);
        push_review_rows(&mut out, &steps[k], password_set);
        assert(sv[k as int] == steps@[k as int]@);
        assert(row_views(out@) + review_steps(sv, k + 1, password_set) =~= before + review_steps(
            sv,
            k as int,
            password_set,
        ));
    }
    assert(row_views(out@) =~= row_views(out@) + review_steps(sv, 4, password_set));
    out
}


/// `b` is `a` with at most the values of passphrase entries changed.
pub open spec fn differ_in_passphrases(a: Seq<ConfigItem>, b: Seq<ConfigItem>) -> bool {
    &&& a.len() == b.len()
    &&& forall|i: int|
        0 <= i < a.len() ==> #[trigger] a[i] == b[i] || (a[i].item_type == ItemType::InlinePassword
            && b[i] == ConfigItem { value: b[i].value, ..a[i] })
}

proof fn lemma_same_groups(a: Seq<ConfigItem>, b: Seq<ConfigItem>, i: int)
    requires
        differ_in_passphrases(a, b),
        0 <= i,
    ensures
        group_end(a, i) == group_end(b, i),
    decreases a.len() - i,
{
    if i < a.len() {
        assert(a[i] == b[i] || b[i].item_type == a[i].item_type);
        lemma_same_groups(a, b, i + 1);
    }
}

proof fn lemma_same_selection(a: Seq<ConfigItem>, b: Seq<ConfigItem>, from: int, to: int)
    requires
        differ_in_passphrases(a, b),
        0 <= from,
        to <= a.len(),
    ensures
        selected_in(a, from, to) == selected_in(b, from, to),
    decreases to - from,
{
    if to > from {
        assert(a[to - 1] == b[to - 1] || a[to - 1].item_type == ItemType::InlinePassword);
        lemma_same_selection(a, b, from, to - 1);
    }
}

proof fn lemma_same_review(a: Seq<ConfigItem>, b: Seq<ConfigItem>, i: int, password_set: bool)
    requires
        differ_in_passphrases(a, b),
        0 <= i,
    ensures
        review_rows(a, i, password_set) == review_rows(b, i, password_set),
    decreases a.len() - i,
{
    if i < a.len() {
        assert(a[i] == b[i] || a[i].item_type == ItemType::InlinePassword);
        if a[i].item_type == ItemType::RadioHeader {
            lemma_group_end(a, i + 1);
            lemma_same_groups(a, b, i + 1);
            let e = group_end(a, i + 1);
            if e <= a.len() {
                lemma_same_selection(a, b, i + 1, e);
            }
            lemma_same_review(a, b, e, password_set);
        } else {
            lemma_same_review(a, b, i + 1, password_set);
        }
    }
}

/// The review page shows nothing of a passphrase: a step whose rows
/// differ only in what their passphrase entries hold reviews the same,
/// row for row.
pub proof fn law_review_hides_passphrases(a: Seq<ConfigItem>, b: Seq<ConfigItem>, password_set: bool)
    requires
        differ_in_passphrases(a, b),
    ensures
        review_rows(a, 0, password_set) == review_rows(b, 0, password_set),
{
    lemma_same_review(a, b, 0, password_set);
}


// ── The ZFS step ──

/// How the installation places the system.
#[derive(Debug, Clone, Copy, PartialEq, Eq)]
pub enum InstallMode {
    FullDisk,
    NewPool,
    ExistingPool,
    Alongside,
}

/// A compact choice: its setting's key, its options' labels and the
/// current option.
#[derive(Debug)]
pub struct ChoiceFacts {
    pub key: String,
    pub labels: Vec<String>,
    pub index: usize,
}

/// What the ZFS step shows, as plain values.
#[derive(Debug)]
pub struct ZfsStepFacts {
    pub mode: Option<InstallMode>,
    pub pool_name: Option<String>,
    pub dataset_prefix: String,
    pub encryption: ChoiceFacts,
    /// Some encryption is chosen.
    pub encrypted: bool,
    pub encryption_password_set: bool,
    pub swap: ChoiceFacts,
    /// The swap method as it is named.
    pub swap_label: String,
    /// The swap planned alongside an existing system, in bytes (0 for none).
    pub alongside_swap_bytes: u64,
    /// The swap method puts swap on a partition.
    pub swap_on_partition: bool,
    pub swap_partition_size: Option<String>,
    pub compression: ChoiceFacts,
    pub init_system: ChoiceFacts,
}

/// A row in full: what it shows, its choices, the current choice and
/// whether it is an advanced setting.
pub type ItemView = (RowView, Seq<Seq<char>>, int, bool);

pub open spec fn item_view(c: ConfigItem) -> ItemView {
    (row_view(c), string_views(c.choices@), c.choice_index as int, c.advanced)
}

pub open spec fn item_views(s: Seq<ConfigItem>) -> Seq<ItemView> {
    s.map_values(|c: ConfigItem| item_view(c))
}

/// A row with no choices that is not advanced.
pub open spec fn plain(v: RowView) -> ItemView {
    (v, seq![], 0, false)
}

/// A row's view from its parts.
pub open spec fn parts(key: Seq<char>, label: Seq<char>, value: Seq<char>, description: Seq<char>, t: ItemType, is_empty: bool) -> RowView {
    (key, label, value, description, t, is_empty, seq![], seq![], seq![])
}

/// An inline text entry.
pub open spec fn inline_text_row(key: Seq<char>, label: Seq<char>, value: Seq<char>, description: Seq<char>) -> ItemView {
    plain(parts(key, label, value, description, ItemType::InlineText, false))
}

/// A compact choice among `labels`, showing the current one.
pub open spec fn choice_row(key: Seq<char>, label: Seq<char>, labels: Seq<Seq<char>>, index: int, description: Seq<char>, advanced: bool) -> ItemView {
    (parts(key, label, labels[index], description, ItemType::CompactChoice, false), labels, index, advanced)
}

pub open spec fn facts_labels(f: ChoiceFacts) -> Seq<Seq<char>> {
    string_views(f.labels@)
}

/// The options of encryption when the pool exists already.
pub open spec fn existing_pool_encryption_labels() -> Seq<Seq<char>> {
    seq!["No additional encryption"@, "Unlock encrypted pool"@, "Encrypt new boot environment"@]
}

pub open spec fn opt_text(o: Option<String>, none: Seq<char>) -> Seq<char> {
    match o {
        Some(s) => s@,
        None => none,
    }
}

/// The swap rows of the ZFS step.
pub open spec fn swap_rows(f: ZfsStepFacts, swap_partition_row: ConfigItem) -> Seq<ItemView> {
    if f.mode == Some(InstallMode::Alongside) {
        seq![
            plain(
                parts(
                    seq![],
                    "Swap method"@,
                    if f.alongside_swap_bytes > 0 {
                        f.swap_label@ + " — "@ + dec((f.alongside_swap_bytes / 1073741824) as nat) + " GiB"@
                    } else {
                        f.swap_label@
                    },
                    "Configured with the space allocation on the Disk page"@,
                    ItemType::Readonly,
                    false,
                ),
            ),
        ]
    } else {
        seq![
            plain(header_row(seq![], "Swap"@)),
            choice_row(
                f.swap.key@,
                "Swap method"@,
                facts_labels(f.swap),
                f.swap.index as int,
                "ZRAM uses compressed RAM. A swap partition uses disk space."@,
                false,
            ),
        ] + if f.swap_on_partition {
            if f.mode == Some(InstallMode::FullDisk) {
                seq![
                    inline_text_row(
                        "swap_partition_size"@,
                        "Swap size"@,
                        opt_text(f.swap_partition_size, seq![]),
                        "Created on the selected disk, for example 8G"@,
                    ),
                ]
            } else {
                seq![item_view(swap_partition_row)]
            }
        } else {
            seq![]
        }
    }
}

/// The rows of the ZFS step: the pool (an existing one to choose, or a new
/// one's name) and the boot environment; encryption, and its passphrase
/// when there is encryption; swap; then compression and the initramfs
/// generator among the advanced settings. `swap_partition_row` is the
/// storage row of the swap partition.
pub open spec fn zfs_rows(f: ZfsStepFacts, swap_partition_row: ConfigItem) -> Seq<ItemView> {
    let existing = f.mode == Some(InstallMode::ExistingPool);
    seq![
        plain(header_row(seq![], "Pool and boot environment"@)),
        if existing {
            plain(
                parts(
                    "storage:pool"@,
                    "Existing pool"@,
                    opt_text(f.pool_name, "Choose a pool"@),
                    "Select the existing pool; its name will not be changed"@,
                    ItemType::Storage,
                    f.pool_name is None,
                ),
            )
        } else {
            inline_text_row("pool_name"@, "New pool name"@, opt_text(f.pool_name, seq![]), seq![])
        },
        inline_text_row(
            "dataset_prefix"@,
            "Boot environment"@,
            f.dataset_prefix@,
            "Create "@ + be_base(opt_text(f.pool_name, "?"@), f.dataset_prefix@),
        ),
        plain(header_row(seq![], "Data protection"@)),
        choice_row(
            f.encryption.key@,
            "Encryption"@,
            if existing {
                existing_pool_encryption_labels()
            } else {
                facts_labels(f.encryption)
            },
            f.encryption.index as int,
            if existing {
                "Use the existing pool passphrase, or give the new boot environment its own encryption."@
            } else {
                "Encrypt the entire pool, or just this boot environment."@
            },
            false,
        ),
    ] + (if f.encrypted {
        seq![
            plain(
                parts(
                    "encryption_password"@,
                    "Encryption passphrase"@,
                    if f.encryption_password_set {
                        "Set — enter to replace"@
                    } else {
                        "Required"@
                    },
                    "At least 8 characters. Keep a copy: a lost passphrase cannot be recovered."@,
                    ItemType::InlinePassword,
                    false,
                ),
            ),
        ]
    } else {
        seq![]
    }) + swap_rows(f, swap_partition_row) + seq![
        choice_row(
            f.compression.key@,
            "Compression"@,
            facts_labels(f.compression),
            f.compression.index as int,
            "lz4 prioritizes speed; zstd levels trade CPU time for compression."@,
            true,
        ),
        choice_row(
            f.init_system.key@,
            "Initramfs generator"@,
            facts_labels(f.init_system),
            f.init_system.index as int,
            "Builds the early boot image used to load the system."@,
            true,
        ),
    ]
}

/// A choice's facts fit: the current option is one of its labels, and the
/// index fits a row's `i32`.
pub open spec fn choice_fits(f: ChoiceFacts) -> bool {
    f.index < f.labels.len() && f.index <= i32::MAX
}

fn push_item(out: &mut Vec<ConfigItem>, row: ConfigItem)
    ensures
        item_views(final(out)@) == item_views(old(out)@) + seq![item_view(row)],
{
    let ghost before = out@;
    out.push(row);
    assert(item_views(out@) =~= item_views(before) + seq![item_view(row)]);
}

fn copy_strings(v: &Vec<String>) -> (r: Vec<String>)
    ensures
        string_views(r@) == string_views(v@),
{
    let mut r: Vec<String> = Vec::new();
    for i in 0..v.len()
        invariant
            string_views(r@) == string_views(v@.take(i as int)),
    {
        r.push(v[i].clone());
        assert(string_views(v@.take(i + 1)) =~= string_views(v@.take(i as int)).push(v@[i as int]@));
        assert(string_views(r@) =~= string_views(r@.drop_last()).push(r@.last()@));
    }
    assert(v@.take(v.len() as int) =~= v@);
    r
}

fn choice_item(key: &str, label: &str, labels: &Vec<String>, index: usize, description: &str, advanced: bool) -> (r: ConfigItem)
    requires
        index < labels.len(),
        index <= i32::MAX,
    ensures
        item_view(r) == choice_row(key@, label@, string_views(labels@), index as int, description@, advanced),
{
    let mut r = readonly_row(key, label, labels[index].as_str(), description, false, "", "", "");
    proof {
        reveal_strlit("");
    }
    r.item_type = ItemType::CompactChoice;
    r.choices = copy_strings(labels);
    r.choice_index = index as i32;
    r.advanced = advanced;
    r
}

fn plain_item(key: &str, label: &str, value: &str, description: &str, t: ItemType, is_empty: bool) -> (r: ConfigItem)
    ensures
        item_view(r) == plain(parts(key@, label@, value@, description@, t, is_empty)),
{
    let mut r = readonly_row(key, label, value, description, is_empty, "", "", "");
    proof {
        reveal_strlit("");
    }
    r.item_type = t;
    assert(string_views(r.choices@) =~= Seq::<Seq<char>>::empty());
    r
}

fn header_item(label: &str) -> (r: ConfigItem)
    ensures
        item_view(r) == plain(header_row(seq![], label@)),
{
    let r = section_header(label);
    assert(string_views(r.choices@) =~= Seq::<Seq<char>>::empty());
    r
}

/// The rows of the ZFS step (see `zfs_rows`).
pub fn zfs_items(f: &ZfsStepFacts, swap_partition_row: ConfigItem) -> (r: Vec<ConfigItem>)
    requires
        choice_fits(f.encryption),
        f.mode == Some(InstallMode::ExistingPool) ==> f.encryption.index < 3,
        choice_fits(f.swap),
        choice_fits(f.compression),
        choice_fits(f.init_system),
    ensures
        item_views(r@) == zfs_rows(*f, swap_partition_row),
{
    proof {
        reveal_strlit("");
    }
    let existing = match f.mode {
        Some(InstallMode::ExistingPool) => true,
        _ => false,
    };
    let mut out: Vec<ConfigItem> = Vec::new();
    push_item(&mut out, header_item("Pool and boot environment"));
    if existing {
        let (value, empty) = match &f.pool_name {
            Some(p) => (p.as_str(), false),
            None => ("Choose a pool", true),
        };
        push_item(
            &mut out,
            plain_item(
                "storage:pool",
                "Existing pool",
                value,
                "Select the existing pool; its name will not be changed",
                ItemType::Storage,
                empty,
            ),
        );
    } else {
        let value = match &f.pool_name {
            Some(p) => p.as_str(),
            None => "",
        };
        push_item(&mut out, plain_item("pool_name", "New pool name", value, "", ItemType::InlineText, false));
    }
    let pool = match &f.pool_name {
        Some(p) => p.as_str(),
        None => "?",
    };
    let mut created = chars_of("Create ");
    let base = crate::boot_environment::BootEnvironment::new(pool, f.dataset_prefix.as_str()).base();
    crate::text::extend_str(&mut created, base.as_str());
    push_item(
        &mut out,
        plain_item(
            "dataset_prefix",
            "Boot environment",
            f.dataset_prefix.as_str(),
            chars_to_string(&created).as_str(),
            ItemType::InlineText,
            false,
        ),
    );
    push_item(&mut out, header_item("Data protection"));
    let enc = if existing {
        let labels = vec![
            "No additional encryption".to_string(),
            "Unlock encrypted pool".to_string(),
            "Encrypt new boot environment".to_string(),
        ];
        assert(string_views(labels@) =~= existing_pool_encryption_labels());
        choice_item(
            f.encryption.key.as_str(),
            "Encryption",
            &labels,
            f.encryption.index,
            "Use the existing pool passphrase, or give the new boot environment its own encryption.",
            false,
        )
    } else {
        choice_item(
            f.encryption.key.as_str(),
            "Encryption",
            &f.encryption.labels,
            f.encryption.index,
            "Encrypt the entire pool, or just this boot environment.",
            false,
        )
    };
    push_item(&mut out, enc);
    let ghost head = item_views(out@);
    assert(head.len() == 5);
    assert(head[0] == zfs_rows(*f, swap_partition_row)[0]);
    assert(head[1] == zfs_rows(*f, swap_partition_row)[1]);
    assert(head[2] == zfs_rows(*f, swap_partition_row)[2]);
    assert(head[3] == zfs_rows(*f, swap_partition_row)[3]);
    assert(head[4] == zfs_rows(*f, swap_partition_row)[4]);
    if f.encrypted {
        push_item(
            &mut out,
            plain_item(
                "encryption_password",
                "Encryption passphrase",
                if f.encryption_password_set {
                    "Set — enter to replace"
                } else {
                    "Required"
                },
                "At least 8 characters. Keep a copy: a lost passphrase cannot be recovered.",
                ItemType::InlinePassword,
                false,
            ),
        );
    }
    let ghost mid = item_views(out@);
    let alongside = match f.mode {
        Some(InstallMode::Alongside) => true,
        _ => false,
    };
    if alongside {
        let value = if f.alongside_swap_bytes > 0 {
            let mut v = chars_of(f.swap_label.as_str());
            crate::text::extend_str(&mut v, " — ");
            let n = crate::text::decimal(f.alongside_swap_bytes / 1073741824);
            crate::text::extend(&mut v, &n);
            crate::text::extend_str(&mut v, " GiB");
            chars_to_string(&v)
        } else {
            f.swap_label.clone()
        };
        assert(value@ == (if f.alongside_swap_bytes > 0 {
            f.swap_label@ + " — "@ + dec((f.alongside_swap_bytes / 1073741824) as nat) + " GiB"@
        } else {
            f.swap_label@
        }));
        let row = plain_item(
            "",
            "Swap method",
            value.as_str(),
            "Configured with the space allocation on the Disk page",
            ItemType::Readonly,
            false,
        );
        assert(item_view(row) == swap_rows(*f, swap_partition_row)[0]);
        push_item(&mut out, row);
        assert(item_views(out@) =~= mid + swap_rows(*f, swap_partition_row));
    } else {
        push_item(&mut out, header_item("Swap"));
        push_item(
            &mut out,
            choice_item(
                f.swap.key.as_str(),
                "Swap method",
                &f.swap.labels,
                f.swap.index,
                "ZRAM uses compressed RAM. A swap partition uses disk space.",
                false,
            ),
        );
        let ghost sw = item_views(out@);
        assert(sw =~= mid + swap_rows(*f, swap_partition_row).take(2));
        if f.swap_on_partition {
            let full_disk = match f.mode {
                Some(InstallMode::FullDisk) => true,
                _ => false,
            };
            if full_disk {
                let size = match &f.swap_partition_size {
                    Some(s) => s.as_str(),
                    None => "",
                };
                let row = plain_item(
                    "swap_partition_size",
                    "Swap size",
                    size,
                    "Created on the selected disk, for example 8G",
                    ItemType::InlineText,
                    false,
                );
                assert(size@ == opt_text(f.swap_partition_size, seq![]));
                assert(item_view(row) == swap_rows(*f, swap_partition_row)[2]);
                push_item(&mut out, row);
            } else {
                assert(item_view(swap_partition_row) == swap_rows(*f, swap_partition_row)[2]);
                push_item(&mut out, swap_partition_row);
            }
            assert(swap_rows(*f, swap_partition_row).len() == 3);
            assert(item_views(out@) =~= sw + seq![swap_rows(*f, swap_partition_row)[2]]);
        } else {
            assert(swap_rows(*f, swap_partition_row).len() == 2);
        }
        assert(item_views(out@) =~= mid + swap_rows(*f, swap_partition_row));
    }
    let ghost after_swap = item_views(out@);
    push_item(
        &mut out,
        choice_item(
            f.compression.key.as_str(),
            "Compression",
            &f.compression.labels,
            f.compression.index,
            "lz4 prioritizes speed; zstd levels trade CPU time for compression.",
            true,
        ),
    );
    push_item(
        &mut out,
        choice_item(
            f.init_system.key.as_str(),
            "Initramfs generator",
            &f.init_system.labels,
            f.init_system.index,
            "Builds the early boot image used to load the system.",
            true,
        ),
    );
    proof {
        assert(mid =~= head + (if f.encrypted {
            seq![item_views(out@)[5]]
        } else {
            seq![]
        }));
        assert(after_swap =~= mid + swap_rows(*f, swap_partition_row));
    }
    assert(item_views(out@) =~= zfs_rows(*f, swap_partition_row));
    out
}


// ── The desktop step ──

/// What the active desktop profile offers.
#[derive(Debug)]
pub struct DesktopProfileFacts {
    /// How many optional packages the profile has, and how many are chosen.
    pub optional_total: u64,
    pub optional_chosen: u64,
    /// The display manager chosen over the profile's default, and that
    /// default, by name.
    pub dm_override: Option<String>,
    pub dm_default: Option<String>,
    /// The profile is a Wayland compositor that needs seat access.
    pub needs_seat_access: bool,
    pub seat_access: ChoiceFacts,
}

/// What the desktop step shows, as plain values.
#[derive(Debug)]
pub struct DesktopStepFacts {
    /// The selected profile's name; `None` for a console-only system.
    pub profile_name: Option<String>,
    /// Set when the selected profile is a desktop.
    pub desktop: Option<DesktopProfileFacts>,
    pub audio: ChoiceFacts,
    /// The profile is graphical, so a GPU driver applies.
    pub supports_gfx_driver: bool,
    /// The profile runs on Wayland only.
    pub wayland_only: bool,
    pub gfx_driver: Option<GfxDriver>,
    pub bluetooth: bool,
    pub additional_packages: Vec<String>,
    pub aur_packages: Vec<String>,
    pub extra_services: Vec<String>,
    pub zrepl: bool,
}

/// A toggle row.
pub open spec fn toggle_row(key: Seq<char>, label: Seq<char>, enabled: bool) -> ItemView {
    plain(
        parts(
            key,
            label,
            if enabled {
                "Enabled"@
            } else {
                "Disabled"@
            },
            seq![],
            ItemType::Toggle,
            !enabled,
        ),
    )
}

/// A list shown joined with commas, or "None" (marked empty).
pub open spec fn list_row(key: Seq<char>, label: Seq<char>, items: Seq<Seq<char>>) -> ItemView {
    plain(
        parts(
            key,
            label,
            if items.len() == 0 {
                "None"@
            } else {
                join_with(items, ", "@)
            },
            seq![],
            ItemType::Text,
            items.len() == 0,
        ),
    )
}

/// The rows for the active desktop profile's settings.
pub open spec fn profile_rows(p: DesktopProfileFacts) -> Seq<ItemView> {
    seq![plain(header_row(seq![], "Profile configuration"@))] + (if p.optional_total > 0 {
        seq![
            plain(
                parts(
                    "optional_packages"@,
                    "Optional packages"@,
                    dec(p.optional_chosen as nat) + " of "@ + dec(p.optional_total as nat),
                    seq![],
                    ItemType::Select,
                    p.optional_chosen == 0,
                ),
            ),
        ]
    } else {
        seq![]
    }) + seq![
        plain(
            parts(
                "display_manager"@,
                "Display manager"@,
                match (p.dm_override, p.dm_default) {
                    (Some(o), _) => o@ + " (override)"@,
                    (None, Some(d)) => d@ + " (default)"@,
                    (None, None) => "None"@,
                },
                dm_description(),
                ItemType::Select,
                p.dm_override is None && p.dm_default is None,
            ),
        ),
    ] + if p.needs_seat_access {
        seq![
            choice_row(
                p.seat_access.key@,
                "Seat access"@,
                facts_labels(p.seat_access),
                p.seat_access.index as int,
                "How the compositor accesses input and display devices."@,
                false,
            ),
        ]
    } else {
        seq![]
    }
}

pub open spec fn profile_description() -> Seq<char> {
    "Choose a desktop environment, a window manager, or a console-only system."@
}

pub open spec fn dm_description() -> Seq<char> {
    "The graphical sign-in screen. The profile default is used unless you override it."@
}

pub open spec fn nvidia_wayland_warning() -> Seq<char> {
    "Proprietary NVIDIA driver is known-problematic on Wayland-only compositors."@
}

/// The rows of the desktop step: the profile and, for a desktop, its
/// settings; sound; hardware (the GPU driver for a graphical profile, with
/// a warning for NVIDIA's driver under a Wayland-only compositor, and
/// Bluetooth); software (extra packages, services, zrepl).
pub open spec fn desktop_rows(f: DesktopStepFacts) -> Seq<ItemView> {
    seq![
        plain(header_row(seq![], "Environment"@)),
        plain(
            parts(
                "profile"@,
                "Profile"@,
                opt_text(f.profile_name, "Console only"@),
                profile_description(),
                ItemType::Select,
                f.profile_name is None,
            ),
        ),
    ] + (match f.desktop {
        Some(p) => profile_rows(p),
        None => seq![],
    }) + seq![
        plain(header_row(seq![], "Sound"@)),
        choice_row(
            f.audio.key@,
            "Audio"@,
            facts_labels(f.audio),
            f.audio.index as int,
            "Choose the sound server installed with the system."@,
            false,
        ),
        plain(header_row(seq![], "Hardware"@)),
    ] + gpu_rows(f) + software_rows(f)
}

/// The GPU driver row of a graphical profile, and the warning for
/// NVIDIA's driver under a Wayland-only compositor.
pub open spec fn gpu_rows(f: DesktopStepFacts) -> Seq<ItemView> {
    if f.supports_gfx_driver {
        seq![
            plain(
                parts(
                    "gpu_driver"@,
                    "GPU driver"@,
                    match f.gfx_driver {
                        Some(d) => crate::gpu::driver_label(d)@,
                        None => "None"@,
                    },
                    seq![],
                    ItemType::Select,
                    f.gfx_driver is None,
                ),
            ),
        ] + if f.wayland_only && f.gfx_driver == Some(GfxDriver::NvidiaOpen) {
            seq![plain(parts(seq![], seq![], nvidia_wayland_warning(), seq![], ItemType::Warning, false))]
        } else {
            seq![]
        }
    } else {
        seq![]
    }
}

/// Bluetooth, then the software section.
pub open spec fn software_rows(f: DesktopStepFacts) -> Seq<ItemView> {
    seq![
        toggle_row("bluetooth"@, "Bluetooth"@, f.bluetooth),
        plain(header_row(seq![], "Software"@)),
        list_row(
            "packages"@,
            "Extra packages"@,
            string_views(f.additional_packages@) + string_views(f.aur_packages@),
        ),
        list_row("extra_services"@, "Extra services"@, string_views(f.extra_services@)),
        toggle_row("zrepl"@, "zrepl (snapshots)"@, f.zrepl),
    ]
}

fn joined_or_none(items: &Vec<String>) -> (r: String)
    ensures
        r@ == if items@.len() == 0 {
            "None"@
        } else {
            join_with(string_views(items@), ", "@)
        },
{
    if items.len() == 0 {
        return "None".to_string();
    }
    let mut parts: Vec<Vec<char>> = Vec::new();
    for i in 0..items.len()
        invariant
            crate::text::views(parts@) == string_views(items@.take(i as int)),
    {
        parts.push(chars_of(items[i].as_str()));
        assert(string_views(items@.take(i + 1)) =~= string_views(items@.take(i as int)).push(items@[i as int]@));
        assert(crate::text::views(parts@) =~= crate::text::views(parts@.drop_last()).push(parts@.last()@));
    }
    assert(items@.take(items.len() as int) =~= items@);
    chars_to_string(&crate::text::join(&parts, &chars_of(", ")))
}

fn toggle_item(key: &str, label: &str, enabled: bool) -> (r: ConfigItem)
    ensures
        item_view(r) == toggle_row(key@, label@, enabled),
{
    proof {
        reveal_strlit("");
    }
    plain_item(
        key,
        label,
        if enabled {
            "Enabled"
        } else {
            "Disabled"
        },
        "",
        ItemType::Toggle,
        !enabled,
    )
}

fn push_profile_rows(out: &mut Vec<ConfigItem>, p: &DesktopProfileFacts)
    requires
        p.needs_seat_access ==> choice_fits(p.seat_access),
    ensures
        item_views(final(out)@) == item_views(old(out)@) + profile_rows(*p),
{
    proof {
        reveal_strlit("");
    }
    let ghost start = item_views(out@);
    push_item(out, header_item("Profile configuration"));
    let ghost h = item_views(out@);
    assert(h =~= start + seq![plain(header_row(seq![], "Profile configuration"@))]);
    if p.optional_total > 0 {
        let mut v = decimal(p.optional_chosen);
        extend_str(&mut v, " of ");
        let t = decimal(p.optional_total);
        crate::text::extend(&mut v, &t);
        assert(v@ == dec(p.optional_chosen as nat) + " of "@ + dec(p.optional_total as nat));
        let row = plain_item(
            "optional_packages",
            "Optional packages",
            chars_to_string(&v).as_str(),
            "",
            ItemType::Select,
            p.optional_chosen == 0,
        );
        assert(item_view(row) == plain(
            parts(
                "optional_packages"@,
                "Optional packages"@,
                dec(p.optional_chosen as nat) + " of "@ + dec(p.optional_total as nat),
                seq![],
                ItemType::Select,
                p.optional_chosen == 0,
            ),
        ));
        push_item(out, row);
    }
    let ghost mid = item_views(out@);
    assert(mid =~= start + seq![plain(header_row(seq![], "Profile configuration"@))] + (if p.optional_total > 0 {
        seq![
            plain(
                parts(
                    "optional_packages"@,
                    "Optional packages"@,
                    dec(p.optional_chosen as nat) + " of "@ + dec(p.optional_total as nat),
                    seq![],
                    ItemType::Select,
                    p.optional_chosen == 0,
                ),
            ),
        ]
    } else {
        seq![]
    }));
    let (value, empty) = match (&p.dm_override, &p.dm_default) {
        (Some(o), _) => {
            let mut v = chars_of(o.as_str());
            extend_str(&mut v, " (override)");
            (chars_to_string(&v), false)
        },
        (None, Some(d)) => {
            let mut v = chars_of(d.as_str());
            extend_str(&mut v, " (default)");
            (chars_to_string(&v), false)
        },
        (None, None) => ("None".to_string(), true),
    };
    push_item(
        out,
        plain_item(
            "display_manager",
            "Display manager",
            value.as_str(),
            "The graphical sign-in screen. The profile default is used unless you override it.",
            ItemType::Select,
            empty,
        ),
    );
    let ghost mid2 = item_views(out@);
    if p.needs_seat_access {
        push_item(
            out,
            choice_item(
                p.seat_access.key.as_str(),
                "Seat access",
                &p.seat_access.labels,
                p.seat_access.index,
                "How the compositor accesses input and display devices.",
                false,
            ),
        );
    }
    assert(item_views(out@) =~= start + profile_rows(*p));
}

fn push_gpu_rows(out: &mut Vec<ConfigItem>, f: &DesktopStepFacts)
    ensures
        item_views(final(out)@) == item_views(old(out)@) + gpu_rows(*f),
{
    proof {
        reveal_strlit("");
    }
    let ghost c = item_views(out@);
    let ghost gfx = gpu_rows(*f);
    if f.supports_gfx_driver {
        let value = match f.gfx_driver {
            Some(d) => d.label(),
            None => "None",
        };
        let none = f.gfx_driver.is_none();
        let row = plain_item("gpu_driver", "GPU driver", value, "", ItemType::Select, none);
        assert(none == f.gfx_driver is None);
        assert(value@ == match f.gfx_driver {
            Some(dr) => crate::gpu::driver_label(dr)@,
            None => "None"@,
        });
        assert(item_view(row) == gfx[0]);
        push_item(out, row);
        let nvidia = match f.gfx_driver {
            Some(GfxDriver::NvidiaOpen) => true,
            _ => false,
        };
        assert(value@ == match f.gfx_driver {
            Some(dr) => crate::gpu::driver_label(dr)@,
            None => "None"@,
        });
        let ghost g1 = item_views(out@);
        assert(g1 =~= c + gfx.take(1));
        if f.wayland_only && nvidia {
            let w = plain_item(
                "",
                "",
                "Proprietary NVIDIA driver is known-problematic on Wayland-only compositors.",
                "",
                ItemType::Warning,
                false,
            );
            assert(item_view(w) == gfx[1]);
            push_item(out, w);
            assert(item_views(out@) =~= c + gfx);
        } else {
            assert(gfx.len() == 1);
            assert(item_views(out@) =~= c + gfx);
        }
    } else {
        assert(item_views(out@) =~= c + gfx);
    }
}

fn push_software_rows(out: &mut Vec<ConfigItem>, f: &DesktopStepFacts)
    ensures
        item_views(final(out)@) == item_views(old(out)@) + software_rows(*f),
{
    proof {
        reveal_strlit("");
    }
    let ghost d = item_views(out@);
    push_item(out, toggle_item("bluetooth", "Bluetooth", f.bluetooth));
    push_item(out, header_item("Software"));
    let ghost e = item_views(out@);
    assert(e =~= d + seq![toggle_row("bluetooth"@, "Bluetooth"@, f.bluetooth), plain(header_row(seq![], "Software"@))]);
    let mut all: Vec<String> = Vec::new();
    for i in 0..f.additional_packages.len()
        invariant
            string_views(all@) == string_views(f.additional_packages@.take(i as int)),
    {
        all.push(f.additional_packages[i].clone());
        assert(string_views(f.additional_packages@.take(i + 1)) =~= string_views(
            f.additional_packages@.take(i as int),
        ).push(f.additional_packages@[i as int]@));
        assert(string_views(all@) =~= string_views(all@.drop_last()).push(all@.last()@));
    }
    assert(f.additional_packages@.take(f.additional_packages.len() as int) =~= f.additional_packages@);
    for i in 0..f.aur_packages.len()
        invariant
            string_views(all@) == string_views(f.additional_packages@) + string_views(
                f.aur_packages@.take(i as int),
            ),
    {
        let ghost before = string_views(all@);
        all.push(f.aur_packages[i].clone());
        assert(string_views(f.aur_packages@.take(i + 1)) =~= string_views(f.aur_packages@.take(i as int)).push(
            f.aur_packages@[i as int]@,
        ));
        assert(string_views(all@) =~= before.push(f.aur_packages@[i as int]@));
        assert(string_views(f.additional_packages@) + string_views(f.aur_packages@.take(i + 1)) =~= (
        string_views(f.additional_packages@) + string_views(f.aur_packages@.take(i as int))).push(
            f.aur_packages@[i as int]@,
        ));
    }
    assert(f.aur_packages@.take(f.aur_packages.len() as int) =~= f.aur_packages@);
    proof {
        reveal_strlit("");
    }
    let packages = joined_or_none(&all);
    let prow = plain_item(
        "packages",
        "Extra packages",
        packages.as_str(),
        "",
        ItemType::Text,
        all.len() == 0,
    );
    assert(item_view(prow) == list_row(
        "packages"@,
        "Extra packages"@,
        string_views(f.additional_packages@) + string_views(f.aur_packages@),
    ));
    push_item(out, prow);
    let services = joined_or_none(&f.extra_services);
    let srow = plain_item(
        "extra_services",
        "Extra services",
        services.as_str(),
        "",
        ItemType::Text,
        f.extra_services.len() == 0,
    );
    assert(item_view(srow) == list_row("extra_services"@, "Extra services"@, string_views(f.extra_services@)));
    push_item(out, srow);
    push_item(out, toggle_item("zrepl", "zrepl (snapshots)", f.zrepl));
    assert(item_views(out@) =~= e + seq![
        list_row(
            "packages"@,
            "Extra packages"@,
            string_views(f.additional_packages@) + string_views(f.aur_packages@),
        ),
        list_row("extra_services"@, "Extra services"@, string_views(f.extra_services@)),
        toggle_row("zrepl"@, "zrepl (snapshots)"@, f.zrepl),
    ]);
    assert(item_views(out@) =~= d + software_rows(*f));
}

/// The rows of the desktop step (see `desktop_rows`).
pub fn desktop_items(f: &DesktopStepFacts) -> (r: Vec<ConfigItem>)
    requires
        choice_fits(f.audio),
        f.desktop matches Some(p) ==> (p.needs_seat_access ==> choice_fits(p.seat_access)),
    ensures
        item_views(r@) == desktop_rows(*f),
{
    proof {
        reveal_strlit("");
    }
    let mut out: Vec<ConfigItem> = Vec::new();
    push_item(&mut out, header_item("Environment"));
    let (name, empty) = match &f.profile_name {
        Some(n) => (n.as_str(), false),
        None => ("Console only", true),
    };
    push_item(
        &mut out,
        plain_item(
            "profile",
            "Profile",
            name,
            "Choose a desktop environment, a window manager, or a console-only system.",
            ItemType::Select,
            empty,
        ),
    );
    let ghost a = item_views(out@);
    match &f.desktop {
        Some(p) => push_profile_rows(&mut out, p),
        None => {},
    }
    let ghost b = item_views(out@);
    push_item(&mut out, header_item("Sound"));
    push_item(
        &mut out,
        choice_item(
            f.audio.key.as_str(),
            "Audio",
            &f.audio.labels,
            f.audio.index,
            "Choose the sound server installed with the system.",
            false,
        ),
    );
    push_item(&mut out, header_item("Hardware"));
    let ghost c = item_views(out@);
    assert(c =~= b + seq![
        plain(header_row(seq![], "Sound"@)),
        choice_row(
            f.audio.key@,
            "Audio"@,
            facts_labels(f.audio),
            f.audio.index as int,
            "Choose the sound server installed with the system."@,
            false,
        ),
        plain(header_row(seq![], "Hardware"@)),
    ]);
    push_gpu_rows(&mut out, f);
    push_software_rows(&mut out, f);
    proof {
        assert(a.len() == 2);
        assert(b =~= a + match f.desktop {
            Some(p) => profile_rows(p),
            None => seq![],
        });
    }
    assert(item_views(out@) =~= desktop_rows(*f));
    out
}

} // verus!
