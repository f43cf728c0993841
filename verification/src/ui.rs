//! Pure presentation logic: table navigation state, text sparklines and
//! bars, rate-string handling and byte formatting. Rendering itself (the
//! terminal widgets) lives outside the library and only consumes these
//! values.

use crate::metrics::MetricsCollector;
use crate::text;
use crate::types::AdapterInfo;
use vstd::prelude::*;
use vstd::string::StrSliceExecFns;
use vstd::string::StringExecFns;

verus! {

/// One selectable row: an entity, or nothing for an adapter header row.
pub open spec fn row_is_header(items: Seq<Option<(String, u16)>>, row: int) -> bool {
    row < 0 || row >= items.len() || items[row] is None
}

/// Where the selection lands moving up from `row`: headers are skipped
/// until a port row or the top is reached.
pub open spec fn skip_headers_down(items: Seq<Option<(String, u16)>>, row: int) -> int
    decreases
            (if row > 0 {
                row
            } else {
                0
            }),
{
    if row > 0 && row_is_header(items, row) {
        skip_headers_down(items, row - 1)
    } else {
        row
    }
}

/// Where the selection lands moving down from `row`: headers are skipped
/// while a next row exists.
pub open spec fn skip_headers_up(items: Seq<Option<(String, u16)>>, row: int) -> int
    decreases
            (if items.len() - row > 0 {
                items.len() - row
            } else {
                0
            }),
{
    if row + 1 < items.len() && row_is_header(items, row) {
        skip_headers_up(items, row + 1)
    } else {
        row
    }
}

/// Where the selection settles scanning downward from `row`: headers are
/// skipped while a next row exists; the scan stops on the first port row,
/// or on the last row.
pub open spec fn skip_headers_fwd(items: Seq<Option<(String, u16)>>, row: int) -> int
    decreases
            (if items.len() - row > 0 {
                items.len() - row
            } else {
                0
            }),
{
    if 0 <= row < items.len() && row_is_header(items, row) {
        if row + 1 < items.len() {
            skip_headers_fwd(items, row + 1)
        } else {
            row
        }
    } else {
        row
    }
}

/// The row the selection is clamped to when the list shrinks below it.
pub open spec fn clamp_row(len: int, row: int) -> int {
    if row >= len {
        if len == 0 {
            0
        } else {
            len - 1
        }
    } else {
        row
    }
}

/// The selectable rows of a poll: one header per adapter, then one row per
/// port.
pub open spec fn rows_of(a: AdapterInfo) -> Seq<Option<(Seq<char>, u16)>> {
    seq![None].add(
        a.ports@.map(
            |i: int, p: crate::types::PortInfo| Some((a.name@, p.port_number)),
        ),
    )
}

/// All selectable rows of a poll, adapter by adapter.
pub open spec fn items_of(adapters: Seq<AdapterInfo>) -> Seq<Option<(Seq<char>, u16)>>
    decreases adapters.len(),
{
    if adapters.len() == 0 {
        Seq::empty()
    } else {
        items_of(adapters.drop_last()) + rows_of(adapters.last())
    }
}

/// The view of one selectable row.
pub open spec fn item_view(item: Option<(String, u16)>) -> Option<(Seq<char>, u16)> {
    match item {
        Some(p) => Some((p.0@, p.1)),
        None => None,
    }
}

/// The view of the selectable-row list.
pub open spec fn items_view(items: Seq<Option<(String, u16)>>) -> Seq<Option<(Seq<char>, u16)>> {
    items.map(|i: int, item: Option<(String, u16)>| item_view(item))
}

/// Application state for the interactive table: selection, detail panel and
/// animation counters.
pub struct AppState {
    /// Currently selected row index.
    pub selected_row: usize,
    /// Whether the detail view is expanded.
    pub detail_expanded: bool,
    /// Currently selected tab in the detail view (0 to 2).
    pub detail_tab: usize,
    /// Scroll offset for the main table.
    pub scroll_offset: usize,
    /// Animation frame counter.
    pub frame_count: u64,
    /// Selectable rows: an entity per port row, nothing for adapter headers.
    pub selectable_items: Vec<Option<(String, u16)>>,
}

impl AppState {
    /// Fresh state: nothing selected, detail collapsed, first tab.
    pub fn new() -> (r: Self)
        ensures
            r.selected_row == 0,
            !r.detail_expanded,
            r.detail_tab == 0,
            r.scroll_offset == 0,
            r.frame_count == 0,
            r.selectable_items@.len() == 0,
    {
        AppState {
            selected_row: 0,
            detail_expanded: false,
            detail_tab: 0,
            scroll_offset: 0,
            frame_count: 0,
            selectable_items: Vec::new(),
        }
    }

    fn is_header_row(&self, row: usize) -> (r: bool)
        ensures
            r == row_is_header(self.selectable_items@, row as int),
    {
        if row >= self.selectable_items.len() {
            return true;
        }
        match &self.selectable_items[row] {
            None => true,
            Some(_) => false,
        }
    }

    /// Move the selection up, skipping adapter header rows.
    pub fn select_prev(&mut self)
        ensures
            final(self).selected_row == if old(self).selected_row > 0 {
                skip_headers_down(old(self).selectable_items@, old(self).selected_row - 1)
            } else {
                0
            },
            final(self).selectable_items == old(self).selectable_items,
            final(self).detail_expanded == old(self).detail_expanded,
            final(self).detail_tab == old(self).detail_tab,
            final(self).frame_count == old(self).frame_count,
    {
        if self.selected_row > 0 {
            self.selected_row = self.selected_row - 1;
            while self.selected_row > 0 && self.is_header_row(self.selected_row)
                invariant
                    self.selectable_items == old(self).selectable_items,
                    self.detail_expanded == old(self).detail_expanded,
                    self.detail_tab == old(self).detail_tab,
                    self.frame_count == old(self).frame_count,
                    self.scroll_offset == old(self).scroll_offset,
                    old(self).selected_row > 0,
                    self.selected_row < old(self).selected_row,
                    skip_headers_down(self.selectable_items@, self.selected_row as int)
                        == skip_headers_down(
                        old(self).selectable_items@,
                        old(self).selected_row - 1,
                    ),
                decreases self.selected_row,
            {
                self.selected_row = self.selected_row - 1;
            }
        }
    }

    /// Move the selection down, skipping adapter header rows while a next
    /// row exists.
    pub fn select_next(&mut self)
        ensures
            final(self).selected_row == if old(self).selected_row + 1 < old(
                self,
            ).selectable_items@.len() {
                skip_headers_up(old(self).selectable_items@, old(self).selected_row + 1)
            } else {
                old(self).selected_row as int
            },
            final(self).selectable_items == old(self).selectable_items,
            final(self).detail_expanded == old(self).detail_expanded,
            final(self).detail_tab == old(self).detail_tab,
            final(self).frame_count == old(self).frame_count,
    {
        if self.selectable_items.len() > 0 && self.selected_row < self.selectable_items.len()
            - 1 {
            self.selected_row = self.selected_row + 1;
            while self.selected_row < self.selectable_items.len() - 1 && self.is_header_row(
                self.selected_row,
            )
                invariant
                    self.selectable_items == old(self).selectable_items,
                    self.detail_expanded == old(self).detail_expanded,
                    self.detail_tab == old(self).detail_tab,
                    self.frame_count == old(self).frame_count,
                    self.scroll_offset == old(self).scroll_offset,
                    self.selected_row < self.selectable_items@.len(),
                    skip_headers_up(self.selectable_items@, self.selected_row as int)
                        == skip_headers_up(
                        old(self).selectable_items@,
                        old(self).selected_row + 1,
                    ),
                decreases self.selectable_items@.len() - self.selected_row,
            {
                self.selected_row = self.selected_row + 1;
            }
        }
    }

    /// Toggle the detail view.
    pub fn toggle_detail(&mut self)
        ensures
            final(self).detail_expanded == !old(self).detail_expanded,
            final(self).selected_row == old(self).selected_row,
            final(self).detail_tab == old(self).detail_tab,
            final(self).selectable_items == old(self).selectable_items,
    {
        self.detail_expanded = !self.detail_expanded;
    }

    /// The currently selected port, if the selection is on a port row.
    pub fn selected_port(&self) -> (r: Option<(&str, u16)>)
        ensures
            match r {
                Some(p) => self.selected_row < self.selectable_items@.len() && (
                self.selectable_items@[self.selected_row as int] matches Some(q) && q.0@ == p.0@
                    && q.1 == p.1),
                None => row_is_header(self.selectable_items@, self.selected_row as int),
            },
    {
        if self.selected_row >= self.selectable_items.len() {
            return None;
        }
        match &self.selectable_items[self.selected_row] {
            Some(p) => Some((p.0.as_str(), p.1)),
            None => None,
        }
    }

    /// Cycle the detail tab forward through the three tabs.
    pub fn next_tab(&mut self)
        ensures
            final(self).detail_tab == if old(self).detail_tab >= 2 {
                0int
            } else {
                old(self).detail_tab + 1
            },
            final(self).selected_row == old(self).selected_row,
            final(self).detail_expanded == old(self).detail_expanded,
            final(self).selectable_items == old(self).selectable_items,
    {
        self.detail_tab = if self.detail_tab >= 2 {
            0
        } else {
            self.detail_tab + 1
        };
    }

    /// Cycle the detail tab backward through the three tabs.
    pub fn prev_tab(&mut self)
        ensures
            final(self).detail_tab == if old(self).detail_tab == 0 {
                2int
            } else {
                old(self).detail_tab - 1
            },
            final(self).selected_row == old(self).selected_row,
            final(self).detail_expanded == old(self).detail_expanded,
            final(self).selectable_items == old(self).selectable_items,
    {
        self.detail_tab = if self.detail_tab == 0 {
            2
        } else {
            self.detail_tab - 1
        };
    }

    /// Rebuild the selectable-row list from a poll and clamp the selection
    /// to a valid port row where possible.
    pub fn update_selectable_items(&mut self, adapters: &Vec<AdapterInfo>)
        ensures
            items_view(final(self).selectable_items@) == items_of(adapters@),
            final(self).detail_expanded == old(self).detail_expanded,
            final(self).detail_tab == old(self).detail_tab,
            final(self).frame_count == old(self).frame_count,
            final(self).selected_row == skip_headers_fwd(
                final(self).selectable_items@,
                clamp_row(final(self).selectable_items@.len() as int, old(self).selected_row as int),
            ),
    {
        let mut items: Vec<Option<(String, u16)>> = Vec::new();
        let n = adapters.len();
        let mut ai: usize = 0;
        proof {
            assert(items_view(items@) =~= items_of(adapters@.take(0)));
        }
        while ai < n
            invariant
                n == adapters@.len(),
                ai <= n,
                items_view(items@) == items_of(adapters@.take(ai as int)),
            decreases n - ai,
        {
            let a = &adapters[ai];
            let ghost before = items@;
            items.push(None);
            proof {
                assert(items_view(items@) =~= items_view(before).push(None));
            }
            let pn = a.ports.len();
            let mut pi: usize = 0;
            proof {
                assert(rows_of(adapters@[ai as int]).take(1) =~= seq![
                    None::<(Seq<char>, u16)>,
                ]);
                assert(items_view(items@) =~= items_of(adapters@.take(ai as int)) + rows_of(
                    adapters@[ai as int],
                ).take(1));
            }
            while pi < pn
                invariant
                    n == adapters@.len(),
                    ai < n,
                    *a == adapters@[ai as int],
                    pn == a.ports@.len(),
                    pi <= pn,
                    items_view(items@) =~= items_of(adapters@.take(ai as int)) + rows_of(
                        adapters@[ai as int],
                    ).take(pi + 1),
                decreases pn - pi,
            {
                let p = &a.ports[pi];
                let ghost before2 = items@;
                items.push(Some((a.name.clone(), p.port_number)));
                proof {
                    assert(items_view(items@) =~= items_view(before2).push(
                        Some((adapters@[ai as int].name@, adapters@[ai as int].ports@[pi as int].port_number)),
                    ));
                    assert(rows_of(adapters@[ai as int])[pi + 1] == Some((
                        adapters@[ai as int].name@,
                        adapters@[ai as int].ports@[pi as int].port_number,
                    )));
                    assert(items_view(items@) =~= items_of(adapters@.take(ai as int)) + rows_of(
                        adapters@[ai as int],
                    ).take(pi + 2));
                }
                pi = pi + 1;
            }
            proof {
                assert(rows_of(adapters@[ai as int]).take(pn + 1) =~= rows_of(
                    adapters@[ai as int],
                ));
                assert(adapters@.take(ai + 1).drop_last() =~= adapters@.take(ai as int));
                assert(adapters@.take(ai + 1).last() == adapters@[ai as int]);
                assert(items_view(items@) =~= items_of(adapters@.take(ai + 1)));
            }
            ai = ai + 1;
        }
        proof {
            assert(adapters@.take(n as int) =~= adapters@);
        }
        self.selectable_items = items;
        // Clamp the selection, then skip adapter headers downward in the
        // list.
        if self.selected_row >= self.selectable_items.len() {
            let len = self.selectable_items.len();
            self.selected_row = if len == 0 {
                0
            } else {
                len - 1
            };
        }
        let ghost start = clamp_row(
            self.selectable_items@.len() as int,
            old(self).selected_row as int,
        );
        proof {
            assert(self.selected_row as int == start);
        }
        loop
            invariant
                self.selected_row <= self.selectable_items@.len(),
                items_view(self.selectable_items@) == items_of(adapters@),
                self.detail_expanded == old(self).detail_expanded,
                self.detail_tab == old(self).detail_tab,
                self.frame_count == old(self).frame_count,
                skip_headers_fwd(self.selectable_items@, self.selected_row as int)
                    == skip_headers_fwd(self.selectable_items@, start),
            ensures
                items_view(self.selectable_items@) == items_of(adapters@),
                self.detail_expanded == old(self).detail_expanded,
                self.detail_tab == old(self).detail_tab,
                self.frame_count == old(self).frame_count,
                self.selected_row as int == skip_headers_fwd(self.selectable_items@, start),
            decreases self.selectable_items@.len() - self.selected_row,
        {
            if !(self.selected_row < self.selectable_items.len() && self.is_header_row(
                self.selected_row,
            )) {
                break ;
            }
            if self.selected_row < self.selectable_items.len() - 1 {
                self.selected_row = self.selected_row + 1;
            } else {
                break ;
            }
        }
    }
}

/// The block character for one sparkline level; levels are clamped at 7.
pub open spec fn spark_char(v: u64) -> char {
    if v == 0 {
        '\u{2581}'
    } else if v == 1 {
        '\u{2582}'
    } else if v == 2 {
        '\u{2583}'
    } else if v == 3 {
        '\u{2584}'
    } else if v == 4 {
        '\u{2585}'
    } else if v == 5 {
        '\u{2586}'
    } else if v == 6 {
        '\u{2587}'
    } else {
        '\u{2588}'
    }
}

fn spark_str(v: u64) -> (r: &'static str)
    ensures
        r@ == seq![spark_char(v)],
{
    proof {
        reveal_strlit("\u{2581}");
        reveal_strlit("\u{2582}");
        reveal_strlit("\u{2583}");
        reveal_strlit("\u{2584}");
        reveal_strlit("\u{2585}");
        reveal_strlit("\u{2586}");
        reveal_strlit("\u{2587}");
        reveal_strlit("\u{2588}");
    }
    let r = if v == 0 {
        "\u{2581}"
    } else if v == 1 {
        "\u{2582}"
    } else if v == 2 {
        "\u{2583}"
    } else if v == 3 {
        "\u{2584}"
    } else if v == 4 {
        "\u{2585}"
    } else if v == 5 {
        "\u{2586}"
    } else if v == 6 {
        "\u{2587}"
    } else {
        "\u{2588}"
    };
    proof {
        assert(r@ =~= seq![spark_char(v)]);
    }
    r
}

/// Render sparkline levels as one block character per sample.
pub fn render_inline_sparkline(data: &Vec<u64>) -> (r: String)
    ensures
        r@ == data@.map(|i: int, v: u64| spark_char(v)),
{
    let mut r = String::new();
    let n = data.len();
    let mut i: usize = 0;
    proof {
        assert(r@ =~= data@.take(0).map(|j: int, v: u64| spark_char(v)));
    }
    while i < n
        invariant
            n == data@.len(),
            i <= n,
            r@ == data@.take(i as int).map(|j: int, v: u64| spark_char(v)),
        decreases n - i,
    {
        r.append(spark_str(data[i]));
        proof {
            assert(r@ =~= data@.take(i + 1).map(|j: int, v: u64| spark_char(v)));
        }
        i = i + 1;
    }
    proof {
        assert(data@.take(n as int) =~= data@);
    }
    r
}

/// How many cells of a bar of `width` cells are filled at `percent`
/// utilization: half-up rounding of `percent * width / 100`, capped at the
/// full width.
pub open spec fn spec_filled_cells(percent: int, width: int) -> int {
    let f = (2 * percent * width + 100) / 200;
    if f < width {
        f
    } else {
        width
    }
}

/// Render a utilization bar of `width` cells, filled from the left.
pub fn render_utilization_bar(percent: u64, width: usize) -> (r: String)
    ensures
        r@.len() == width,
        r@ == Seq::new(
            width as nat,
            |i: int|
                if i < spec_filled_cells(percent as int, width as int) {
                    '\u{2588}'
                } else {
                    '\u{2591}'
                },
        ),
{
    let capped: u64 = if percent > 100 {
        100
    } else {
        percent
    };
    proof {
        assert(2 * (capped as int) * (width as int) + 100 < u128::MAX as int)
            by (nonlinear_arith)
            requires
                0 <= capped <= 100,
                0 <= width <= u64::MAX as int,
        ;
    }
    let wide: u128 = (2u128 * (capped as u128) * (width as u128) + 100) / 200;
    let filled: usize = if wide < width as u128 {
        wide as usize
    } else {
        width
    };
    proof {
        if percent > 100 {
            assert((2 * (percent as int) * (width as int) + 100) / 200 >= width as int)
                by (nonlinear_arith)
                requires
                    percent > 100,
                    width >= 0,
            ;
            assert((2 * 100 * (width as int) + 100) / 200 >= width as int) by (nonlinear_arith)
                requires
                    width >= 0,
            ;
        }
        assert(filled as int == spec_filled_cells(percent as int, width as int));
    }
    let mut r = String::new();
    let mut i: usize = 0;
    while i < width
        invariant
            filled as int == spec_filled_cells(percent as int, width as int),
            filled <= width,
            i <= width,
            r@ == Seq::new(
                i as nat,
                |j: int|
                    if j < filled as int {
                        '\u{2588}'
                    } else {
                        '\u{2591}'
                    },
            ),
        decreases width - i,
    {
        proof {
            reveal_strlit("\u{2588}");
            reveal_strlit("\u{2591}");
        }
        if i < filled {
            r.append("\u{2588}");
        } else {
            r.append("\u{2591}");
        }
        proof {
            assert(r@ =~= Seq::new(
                (i + 1) as nat,
                |j: int|
                    if j < filled as int {
                        '\u{2588}'
                    } else {
                        '\u{2591}'
                    },
            ));
        }
        i = i + 1;
    }
    r
}

/// What parsing a rate string yields, in bytes per second: a leading
/// decimal gigabit figure before the first space is converted (1 Gb/sec is
/// 125 million bytes per second, saturating); anything else falls back to
/// the 100 Gb/sec default.
pub open spec fn spec_parse_max_rate(s: Seq<char>) -> int {
    if exists|i: int| 0 <= i < s.len() && s[i] == ' ' {
        let i = choose|i: int|
            0 <= i < s.len() && s[i] == ' ' && (forall|j: int| 0 <= j < i ==> s[j] != ' ');
        match text::dec_parse(s.take(i)) {
            Some(n) => {
                if n * 125000000 <= u64::MAX {
                    n * 125000000
                } else {
                    u64::MAX as int
                }
            },
            None => 12500000000,
        }
    } else {
        12500000000
    }
}

/// Parse the peak rate of a rate string such as `100 Gb/sec (4X EDR)` into
/// bytes per second, defaulting to 100 Gb/sec.
pub fn parse_max_rate(rate_str: &str) -> (r: u64)
    ensures
        r as int == spec_parse_max_rate(rate_str@),
{
    match text::find_char(rate_str, ' ') {
        Some(i) => {
            proof {
                assert(0 <= i < rate_str@.len() && rate_str@[i as int] == ' ' && (forall|j: int|
                    0 <= j < i ==> rate_str@[j] != ' '));
                let w = choose|k: int|
                    0 <= k < rate_str@.len() && rate_str@[k] == ' ' && (forall|j: int|
                        0 <= j < k ==> rate_str@[j] != ' ');
                assert(w == i);
            }
            let prefix = rate_str.substring_char(0, i);
            proof {
                assert(prefix@ =~= rate_str@.take(i as int));
            }
            match text::parse_u64(prefix) {
                Some(n) => {
                    if n <= u64::MAX / 125000000 {
                        proof {
                            assert(n * 125000000 <= u64::MAX) by (nonlinear_arith)
                                requires
                                    0 <= n <= u64::MAX as int / 125000000,
                            ;
                        }
                        n * 125000000
                    } else {
                        proof {
                            assert(n * 125000000 > u64::MAX) by (nonlinear_arith)
                                requires
                                    n > u64::MAX as int / 125000000,
                            ;
                        }
                        u64::MAX
                    }
                },
                None => 12500000000,
            }
        },
        None => 12500000000,
    }
}

/// The rate string up to its first parenthesized annotation, trimmed.
pub open spec fn spec_truncate_rate(s: Seq<char>) -> Seq<char> {
    if exists|i: int| 0 <= i < s.len() && s[i] == '(' {
        let i = choose|i: int|
            0 <= i < s.len() && s[i] == '(' && (forall|j: int| 0 <= j < i ==> s[j] != '(');
        text::spec_trim(s.take(i))
    } else {
        text::spec_trim(s)
    }
}

/// Keep just the speed part of a rate string: everything before the first
/// parenthesis, trimmed.
pub fn truncate_rate(rate: &str) -> (r: String)
    ensures
        r@ == spec_truncate_rate(rate@),
{
    match text::find_char(rate, '(') {
        Some(i) => {
            proof {
                assert(0 <= i < rate@.len() && rate@[i as int] == '(' && (forall|j: int|
                    0 <= j < i ==> rate@[j] != '('));
                let w = choose|k: int|
                    0 <= k < rate@.len() && rate@[k] == '(' && (forall|j: int|
                        0 <= j < k ==> rate@[j] != '(');
                assert(w == i);
            }
            let prefix = rate.substring_char(0, i);
            proof {
                assert(prefix@ =~= rate@.take(i as int));
            }
            text::trim(prefix).to_owned()
        },
        None => text::trim(rate).to_owned(),
    }
}

/// The scale-and-unit reduction of the byte formatter: divide by 1024 and
/// step to the next unit while the value is at least 1024 and a larger
/// unit exists.
pub open spec fn spec_byte_scale(v: nat, idx: nat) -> (nat, nat)
    decreases v,
{
    if v >= 1024 && idx < 5 {
        spec_byte_scale(v / 1024, idx + 1)
    } else {
        (v, idx)
    }
}

/// The unit suffix for a byte magnitude index.
pub open spec fn spec_byte_unit(idx: nat) -> Seq<char> {
    if idx == 0 {
        "B"@
    } else if idx == 1 {
        "KB"@
    } else if idx == 2 {
        "MB"@
    } else if idx == 3 {
        "GB"@
    } else if idx == 4 {
        "TB"@
    } else {
        "PB"@
    }
}

fn byte_unit(idx: usize) -> (r: &'static str)
    ensures
        r@ == spec_byte_unit(idx as nat),
{
    if idx == 0 {
        "B"
    } else if idx == 1 {
        "KB"
    } else if idx == 2 {
        "MB"
    } else if idx == 3 {
        "GB"
    } else if idx == 4 {
        "TB"
    } else {
        "PB"
    }
}

/// 1024 to the power `idx`, for magnitude indexes 0 to 5.
pub open spec fn spec_pow1024(idx: nat) -> nat {
    if idx == 0 {
        1
    } else if idx == 1 {
        1024
    } else if idx == 2 {
        1048576
    } else if idx == 3 {
        1073741824
    } else if idx == 4 {
        1099511627776
    } else {
        1125899906842624
    }
}

fn pow1024(idx: usize) -> (r: u64)
    requires
        1 <= idx <= 5,
    ensures
        r == spec_pow1024(idx as nat),
        r >= 1024,
    {
    if idx == 1 {
        1024
    } else if idx == 2 {
        1048576
    } else if idx == 3 {
        1073741824
    } else if idx == 4 {
        1099511627776
    } else {
        1125899906842624
    }
}

/// What formatting a byte count yields: the value scaled into the largest
/// unit that keeps it under 1024 (capped at petabytes), with one decimal
/// digit of the binary fraction for scaled values, for example `1023B` or
/// `1.0KB`.
pub open spec fn spec_format_bytes(b: nat) -> Seq<char> {
    let (v, idx) = spec_byte_scale(b, 0);
    if idx == 0 {
        text::dec_digits(v) + spec_byte_unit(0)
    } else {
        let frac = (b / spec_pow1024((idx - 1) as nat)) % 1024;
        text::dec_digits(v) + seq!['.'] + seq![text::digit_char(((frac * 10) / 1024) as int)]
            + spec_byte_unit(idx)
    }
}

/// Format a byte count with a binary-magnitude unit, such as `1023B`,
/// `1.0KB` or `1.0PB`.
pub fn format_bytes(bytes: u64) -> (r: String)
    ensures
        r@ == spec_format_bytes(bytes as nat),
{
    let mut value: u64 = bytes;
    let mut idx: usize = 0;
    while value >= 1024 && idx < 5
        invariant
            idx <= 5,
            spec_byte_scale(bytes as nat, 0) == spec_byte_scale(value as nat, idx as nat),
            idx >= 1 ==> value as int == bytes as int / (pow_exec_val(idx as nat) as int),
            idx == 0 ==> value == bytes,
        decreases value,
    {
        value = value / 1024;
        idx = idx + 1;
        proof {
            lemma_pow_step(bytes as nat, idx as nat);
        }
    }
    proof {
        reveal_strlit(".");
    }
    if idx == 0 {
        let mut s = text::dec_string(value);
        s.append(byte_unit(0));
        s
    } else {
        let p = pow1024(idx);
        let frac = (bytes / (p / 1024)) % 1024;
        proof {
            assert(p / 1024 == spec_pow1024((idx - 1) as nat));
            assert(frac * 10 / 1024 <= 9) by (nonlinear_arith)
                requires
                    0 <= frac < 1024,
            ;
        }
        let mut s = text::dec_string(value);
        s.append(".");
        s.append(text::dec_string(frac * 10 / 1024).as_str());
        s.append(byte_unit(idx));
        proof {
            assert(text::dec_digits(((frac as nat) * 10 / 1024) as nat) =~= seq![
                text::digit_char(((frac as int) * 10 / 1024) as int),
            ]);
        }
        s
    }
}

/// `1024^idx` for the format-bytes loop, as a spec value.
pub open spec fn pow_exec_val(idx: nat) -> nat
    decreases idx,
{
    if idx == 0 {
        1
    } else {
        1024 * pow_exec_val((idx - 1) as nat)
    }
}

proof fn lemma_pow_step(b: nat, idx: nat)
    requires
        idx >= 1,
    ensures
        b as int / (pow_exec_val((idx - 1) as nat) as int) / 1024 == b as int / (pow_exec_val(
            idx,
        ) as int),
{
    let p = pow_exec_val((idx - 1) as nat);
    assert(pow_exec_val(idx) == 1024 * p);
    assert(p >= 1) by {
        lemma_pow_pos((idx - 1) as nat);
    }
    vstd::arithmetic::div_mod::lemma_div_denominator(b as int, p as int, 1024);
}

proof fn lemma_pow_pos(idx: nat)
    ensures
        pow_exec_val(idx) >= 1,
    decreases idx,
{
    if idx > 0 {
        lemma_pow_pos((idx - 1) as nat);
    }
}

/// The divisor of the magnitude bucket a throughput value falls in.
pub open spec fn spec_scale_divisor(b: u64) -> int {
    if b >= 1000000000 {
        1000000000
    } else if b >= 1000000 {
        1000000
    } else if b >= 1000 {
        1000
    } else {
        1
    }
}

/// The unit label of the magnitude bucket a throughput value falls in.
pub open spec fn spec_scale_unit(b: u64) -> Seq<char> {
    if b >= 1000000000 {
        "GB/s"@
    } else if b >= 1000000 {
        "MB/s"@
    } else if b >= 1000 {
        "KB/s"@
    } else {
        "B/s"@
    }
}

/// Pick the magnitude bucket for a throughput value: the divisor to scale
/// by and the unit label to show. The display layer divides by the divisor
/// (showing one decimal digit, or two below one tenth of a unit).
pub fn auto_scale_throughput(bytes_per_sec: u64) -> (r: (u64, &'static str))
    ensures
        r.0 as int == spec_scale_divisor(bytes_per_sec),
        r.1@ == spec_scale_unit(bytes_per_sec),
{
    if bytes_per_sec >= 1000000000 {
        (1000000000, "GB/s")
    } else if bytes_per_sec >= 1000000 {
        (1000000, "MB/s")
    } else if bytes_per_sec >= 1000 {
        (1000, "KB/s")
    } else {
        (1, "B/s")
    }
}

/// The running totals of the latest receive and transmit rates of the
/// entities of a poll, summed in order with saturation.
pub open spec fn spec_totals(
    met: Map<(Seq<char>, u16), crate::metrics::PortMetrics>,
    flat: Seq<(Seq<char>, u16, crate::types::PortCounters)>,
) -> (int, int)
    decreases flat.len(),
{
    if flat.len() == 0 {
        (0int, 0int)
    } else {
        let rest = spec_totals(met, flat.drop_last());
        let k = (flat.last().0, flat.last().1);
        if met.contains_key(k) {
            (
                crate::history::add_saturating(rest.0, met[k].rx_bytes_per_sec as int),
                crate::history::add_saturating(rest.1, met[k].tx_bytes_per_sec as int),
            )
        } else {
            rest
        }
    }
}

/// Total receive and transmit throughput across every entity of a poll
/// that has a rate sample, saturating at the integer limit.
pub fn calculate_totals(adapters: &Vec<AdapterInfo>, metrics: &MetricsCollector) -> (r: (u64, u64))
    requires
        metrics.inv(),
    ensures
        (r.0 as int, r.1 as int) == spec_totals(
            metrics.spec_metrics(),
            crate::metrics::flat_of(adapters@),
        ),
{
    let flat = crate::metrics::flatten(adapters);
    let ghost fv = crate::metrics::flat_of(adapters@);
    let ghost met = metrics.spec_metrics();
    let mut rx: u64 = 0;
    let mut tx: u64 = 0;
    let n = flat.len();
    let mut i: usize = 0;
    proof {
        assert(fv.take(0) =~= Seq::<(Seq<char>, u16, crate::types::PortCounters)>::empty());
    }
    while i < n
        invariant
            metrics.inv(),
            met == metrics.spec_metrics(),
            crate::metrics::flat_view(flat@) == fv,
            n == flat@.len(),
            i <= n,
            (rx as int, tx as int) == spec_totals(met, fv.take(i as int)),
        decreases n - i,
    {
        let entry = &flat[i];
        proof {
            assert(fv[i as int] == (entry.0@, entry.1, entry.2));
            assert(fv.take(i + 1).drop_last() =~= fv.take(i as int));
            assert(fv.take(i + 1).last() == fv[i as int]);
        }
        match metrics.get_metrics(entry.0.as_str(), entry.1) {
            Some(m) => {
                let m_rx = m.rx_bytes_per_sec;
                let m_tx = m.tx_bytes_per_sec;
                rx = if rx <= u64::MAX - m_rx {
                    rx + m_rx
                } else {
                    u64::MAX
                };
                tx = if tx <= u64::MAX - m_tx {
                    tx + m_tx
                } else {
                    u64::MAX
                };
            },
            None => {},
        }
        i = i + 1;
    }
    proof {
        assert(fv.take(n as int) =~= fv);
    }
    (rx, tx)
}

} // verus!
