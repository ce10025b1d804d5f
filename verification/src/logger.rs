//! The layout of a measurement log.
//!
//! A log is one CSV row per history interval, so the log is the chart's own
//! points rather than a second sampling that disagrees with it. Writing the
//! file and formatting the levels happen outside this crate; the file's
//! name, its header, and which cell of a row holds which series stand here.
//!
//! The columns are fixed when the log opens. A series added later is not
//! logged (widening the file halfway down breaks every CSV reader), and a
//! series that goes away is written as empty cells — not zero, which is a
//! level.

use vstd::prelude::*;
use crate::history::SeriesInfo;
use crate::text::is_ascii_alnum;

verus! {

/// `c` kept if it is an ASCII letter or digit, `-` otherwise.
pub open spec fn filename_char(c: char) -> char {
    if is_ascii_alnum(c) {
        c
    } else {
        '-'
    }
}

/// The default file name for a log started at `now`.
pub open spec fn default_filename_text(now: Seq<char>) -> Seq<char> {
    "leqtion-"@ + now.map_values(|c: char| filename_char(c)) + ".csv"@
}

/// A file name that sorts chronologically and needs no quoting: the start
/// time with everything but ASCII letters and digits replaced by `-`.
pub fn default_filename(now: &str) -> (r: String)
    ensures
        r@ == default_filename_text(now@),
        // It needs no quoting: letters, digits, dashes and the one dot.
        forall|i: int| 0 <= i < r@.len() ==> is_ascii_alnum(#[trigger] r@[i]) || r@[i] == '-' || r@[i] == '.',
{
    let n = now.unicode_len();
    let mut out = String::from_str("leqtion-");
    let ghost head = out@;
    let mut i: usize = 0;
    while i < n
        invariant
            n == now@.len(),
            i <= n,
            out@ == head + now@.subrange(0, i as int).map_values(|c: char| filename_char(c)),
        decreases n - i,
    {
        let c = now.get_char(i);
        if crate::text::char_is_ascii_alnum(c) {
            out.append(now.substring_char(i, i + 1));
        } else {
            out.append("-");
            proof {
                reveal_strlit("-");
            }
        }
        assert(now@.subrange(0, i + 1).map_values(|c: char| filename_char(c)) =~= now@.subrange(
            0,
            i as int,
        ).map_values(|c: char| filename_char(c)).push(filename_char(c)));
        i = i + 1;
    }
    assert(now@.subrange(0, n as int) =~= now@);
    out.append(".csv");
    proof {
        reveal_strlit("leqtion-");
        reveal_strlit(".csv");
        let mid = now@.map_values(|c: char| filename_char(c));
        assert forall|i: int| 0 <= i < out@.len() implies is_ascii_alnum(#[trigger] out@[i]) || out@[i]
            == '-' || out@[i] == '.' by {
            if i >= 8 && i < 8 + mid.len() {
                assert(out@[i] == mid[i - 8]);
            }
        }
    }
    out
}

/// Cells joined with commas.
pub open spec fn joined(cells: Seq<Seq<char>>) -> Seq<char>
    decreases cells.len(),
{
    if cells.len() == 0 {
        Seq::empty()
    } else if cells.len() == 1 {
        cells[0]
    } else {
        joined(cells.drop_last()) + ","@ + cells.last()
    }
}

/// The characters of each string.
pub open spec fn views(v: Seq<String>) -> Seq<Seq<char>> {
    v.map_values(|s: String| s@)
}

/// One CSV line: the cells joined with commas.
pub fn join_cells(cells: &Vec<String>) -> (r: String)
    ensures
        r@ == joined(views(cells@)),
{
    let mut out = String::new();
    let mut i: usize = 0;
    while i < cells.len()
        invariant
            i <= cells@.len(),
            out@ == joined(views(cells@.subrange(0, i as int))),
        decreases cells@.len() - i,
    {
        if i > 0 {
            out.append(",");
        }
        out.append(cells[i].as_str());
        proof {
            reveal_strlit(",");
            let pre = views(cells@.subrange(0, i as int));
            let post = views(cells@.subrange(0, i + 1));
            assert(post.drop_last() =~= pre);
            assert(post.last() == cells@[i as int]@);
        }
        i = i + 1;
    }
    assert(cells@.subrange(0, cells@.len() as int) =~= cells@);
    out
}

/// The three columns each series contributes, named after its label.
pub open spec fn series_columns(labels: Seq<Seq<char>>) -> Seq<Seq<char>>
    decreases labels.len(),
{
    if labels.len() == 0 {
        Seq::empty()
    } else {
        series_columns(labels.drop_last()) + seq![
            labels.last() + "_min"@,
            labels.last() + "_mean"@,
            labels.last() + "_max"@,
        ]
    }
}

/// The labels of a list of series.
pub open spec fn labels_of(series: Seq<SeriesInfo>) -> Seq<Seq<char>> {
    series.map_values(|s: SeriesInfo| s.label@)
}

/// The ids of a list of series.
pub open spec fn ids_of(series: Seq<SeriesInfo>) -> Seq<Seq<char>> {
    series.map_values(|s: SeriesInfo| s.id@)
}

/// The header cells of a log of `series`: elapsed time, whether the row is
/// calibrated, the cumulative dropped frames, then min, mean and max of
/// every series.
pub open spec fn header_cells_text(series: Seq<SeriesInfo>) -> Seq<Seq<char>> {
    seq!["elapsed_seconds"@, "calibrated"@, "dropped_frames"@] + series_columns(labels_of(series))
}

/// The header cells of a log of `series`.
pub fn header_cells(series: &Vec<SeriesInfo>) -> (r: Vec<String>)
    ensures
        views(r@) == header_cells_text(series@),
        r@.len() == 3 + 3 * series@.len(),
{
    let mut out: Vec<String> = Vec::new();
    out.push(String::from_str("elapsed_seconds"));
    out.push(String::from_str("calibrated"));
    out.push(String::from_str("dropped_frames"));
    let mut i: usize = 0;
    while i < series.len()
        invariant
            i <= series@.len(),
            views(out@) == seq!["elapsed_seconds"@, "calibrated"@, "dropped_frames"@]
                + series_columns(labels_of(series@.subrange(0, i as int))),
            out@.len() == 3 + 3 * i,
        decreases series@.len() - i,
    {
        let label = &series[i].label;
        let mut a = String::from_str(label.as_str());
        a.append("_min");
        let mut b = String::from_str(label.as_str());
        b.append("_mean");
        let mut c = String::from_str(label.as_str());
        c.append("_max");
        let ghost before = views(out@);
        out.push(a);
        out.push(b);
        out.push(c);
        proof {
            let pre = labels_of(series@.subrange(0, i as int));
            let post = labels_of(series@.subrange(0, i + 1));
            assert(post.drop_last() =~= pre);
            assert(post.last() == series@[i as int].label@);
            assert(views(out@) =~= before + seq![
                label@ + "_min"@,
                label@ + "_mean"@,
                label@ + "_max"@,
            ]);
        }
        i = i + 1;
    }
    assert(series@.subrange(0, series@.len() as int) =~= series@);
    out
}

/// The ids of the series a log records, in column order: fixed when the
/// log opens.
pub fn column_ids(series: &Vec<SeriesInfo>) -> (r: Vec<String>)
    ensures
        views(r@) == ids_of(series@),
{
    let mut out: Vec<String> = Vec::new();
    let mut i: usize = 0;
    while i < series.len()
        invariant
            i <= series@.len(),
            views(out@) == ids_of(series@.subrange(0, i as int)),
        decreases series@.len() - i,
    {
        out.push(series[i].id.clone());
        proof {
            assert(ids_of(series@.subrange(0, i + 1)) =~= ids_of(series@.subrange(0, i as int)).push(
                series@[i as int].id@,
            ));
            assert(views(out@) =~= views(out@.drop_last()).push(out@.last()@));
        }
        i = i + 1;
    }
    assert(series@.subrange(0, series@.len() as int) =~= series@);
    out
}

/// `r` is, for each column, the position of the first of the latest points
/// that belongs to that column's series, or `None` if none does.
pub open spec fn is_slot_map(columns: Seq<Seq<char>>, latest: Seq<Seq<char>>, r: Seq<Option<usize>>) -> bool {
    &&& r.len() == columns.len()
    &&& forall|c: int|
        0 <= c < r.len() ==> match #[trigger] r[c] {
            Some(j) => j < latest.len() && latest[j as int] == columns[c] && forall|k: int|
                0 <= k < j ==> latest[k] != columns[c],
            None => forall|k: int| 0 <= k < latest.len() ==> latest[k] != columns[c],
        }
}

/// Where each column's values come from among the latest points, whose
/// series ids are `latest`.
pub fn row_slots(columns: &Vec<String>, latest: &Vec<String>) -> (r: Vec<Option<usize>>)
    ensures
        is_slot_map(views(columns@), views(latest@), r@),
{
    let ghost cs = views(columns@);
    let ghost ls = views(latest@);
    let mut out: Vec<Option<usize>> = Vec::new();
    let mut c: usize = 0;
    while c < columns.len()
        invariant
            cs == views(columns@),
            ls == views(latest@),
            c <= columns@.len(),
            out@.len() == c,
            forall|x: int|
                0 <= x < c ==> match #[trigger] out@[x] {
                    Some(j) => j < ls.len() && ls[j as int] == cs[x] && forall|k: int|
                        0 <= k < j ==> ls[k] != cs[x],
                    None => forall|k: int| 0 <= k < ls.len() ==> ls[k] != cs[x],
                },
        decreases columns@.len() - c,
    {
        let mut j: usize = 0;
        let mut found: Option<usize> = None;
        while j < latest.len()
            invariant_except_break
                found is None,
            invariant
                cs == views(columns@),
                ls == views(latest@),
                c < columns@.len(),
                j <= latest@.len(),
                forall|k: int| 0 <= k < j ==> ls[k] != cs[c as int],
            ensures
                match found {
                    Some(jj) => jj < ls.len() && ls[jj as int] == cs[c as int] && forall|k: int|
                        0 <= k < jj ==> ls[k] != cs[c as int],
                    None => forall|k: int| 0 <= k < ls.len() ==> ls[k] != cs[c as int],
                },
            decreases latest@.len() - j,
        {
            if latest[j] == columns[c] {
                found = Some(j);
                break;
            }
            j = j + 1;
        }
        out.push(found);
        c = c + 1;
    }
    out
}

/// The cells of one row: the three leading cells, then for each column the
/// three formatted statistics of its series' point, or three empty cells if
/// the series has gone away.
pub open spec fn row_cells_text(
    lead: Seq<Seq<char>>,
    slots: Seq<Option<usize>>,
    values: Seq<Seq<Seq<char>>>,
) -> Seq<Seq<char>>
    decreases slots.len(),
{
    if slots.len() == 0 {
        lead
    } else {
        row_cells_text(lead, slots.drop_last(), values) + match slots.last() {
            Some(j) => values[j as int],
            None => seq![Seq::<char>::empty(), Seq::<char>::empty(), Seq::<char>::empty()],
        }
    }
}

/// Lay out one row. `lead` holds the elapsed time, the calibrated flag and
/// the dropped frame count; `values[j]` holds the formatted min, mean and
/// max of the `j`-th latest point; `slots` says which point each column
/// takes. The row is always three cells per column wide.
pub fn row_cells(lead: Vec<String>, slots: &Vec<Option<usize>>, values: &Vec<[String; 3]>) -> (r: Vec<String>)
    requires
        forall|c: int|
            0 <= c < slots@.len() ==> (#[trigger] slots@[c] matches Some(j) ==> j < values@.len()),
    ensures
        views(r@) == row_cells_text(
            views(lead@),
            slots@,
            values@.map_values(|v: [String; 3]| views(v@)),
        ),
        r@.len() == lead@.len() + 3 * slots@.len(),
{
    let ghost vs = values@.map_values(|v: [String; 3]| views(v@));
    let mut out = lead;
    let ghost lead_views = views(out@);
    let ghost lead_len = out@.len();
    let mut c: usize = 0;
    while c < slots.len()
        invariant
            vs == values@.map_values(|v: [String; 3]| views(v@)),
            forall|x: int|
                0 <= x < slots@.len() ==> (#[trigger] slots@[x] matches Some(j) ==> j < values@.len()),
            c <= slots@.len(),
            views(out@) == row_cells_text(lead_views, slots@.subrange(0, c as int), vs),
            out@.len() == lead_len + 3 * c,
        decreases slots@.len() - c,
    {
        let ghost before = views(out@);
        match slots[c] {
            Some(j) => {
                let v = &values[j];
                out.push(v[0].clone());
                out.push(v[1].clone());
                out.push(v[2].clone());
                proof {
                    assert(vs[j as int] == views(v@));
                    assert(views(out@) =~= before + vs[j as int]);
                }
            },
            None => {
                out.push(String::new());
                out.push(String::new());
                out.push(String::new());
                proof {
                    assert(views(out@) =~= before + seq![
                        Seq::<char>::empty(),
                        Seq::<char>::empty(),
                        Seq::<char>::empty(),
                    ]);
                }
            },
        }
        proof {
            assert(slots@.subrange(0, c + 1).drop_last() =~= slots@.subrange(0, c as int));
            assert(slots@.subrange(0, c + 1).last() == slots@[c as int]);
        }
        c = c + 1;
    }
    assert(slots@.subrange(0, slots@.len() as int) =~= slots@);
    out
}


/// The unit a log's levels are in when it starts.
pub open spec fn unit_text(calibrated: bool) -> Seq<char> {
    if calibrated {
        "dB SPL"@
    } else {
        "dBFS"@
    }
}

/// The comment lines above a log's header: the app version, the start time,
/// the device (`unknown` when none is open), the sample rate and interval as
/// formatted by the caller, the level unit at the start, and three notes on
/// reading the file.
pub open spec fn metadata_text(
    version: Seq<char>,
    started_at: Seq<char>,
    device: Option<Seq<char>>,
    sample_rate_hz: Seq<char>,
    interval_seconds: Seq<char>,
    calibrated: bool,
) -> Seq<Seq<char>> {
    seq![
        "# LEQtion "@ + version,
        "# started,"@ + started_at,
        "# device,"@ + match device {
            Some(d) => d,
            None => "unknown"@,
        },
        "# sample_rate_hz,"@ + sample_rate_hz,
        "# interval_seconds,"@ + interval_seconds,
        "# level_unit_at_start,"@ + unit_text(calibrated),
        "# note,levels are full-scale until calibrated; see the calibrated column"@,
        "# note,min and mean and max are over each interval; mean is an energy mean"@,
        "# note,any row where dropped_frames increases covers a period missing audio"@,
    ]
}

/// The comment lines above a log's header, one string per line. The sample
/// rate and interval come already formatted.
pub fn metadata_lines(
    version: &str,
    started_at: &str,
    device: Option<&str>,
    sample_rate_hz: &str,
    interval_seconds: &str,
    calibrated: bool,
) -> (r: Vec<String>)
    ensures
        views(r@) == metadata_text(
            version@,
            started_at@,
            crate::audio::opt_view(device),
            sample_rate_hz@,
            interval_seconds@,
            calibrated,
        ),
{
    let mut lines: Vec<String> = Vec::new();
    let mut a = String::from_str("# LEQtion ");
    a.append(version);
    lines.push(a);
    let mut b = String::from_str("# started,");
    b.append(started_at);
    lines.push(b);
    let mut c = String::from_str("# device,");
    match device {
        Some(d) => c.append(d),
        None => c.append("unknown"),
    }
    lines.push(c);
    let mut d = String::from_str("# sample_rate_hz,");
    d.append(sample_rate_hz);
    lines.push(d);
    let mut e = String::from_str("# interval_seconds,");
    e.append(interval_seconds);
    lines.push(e);
    let mut f = String::from_str("# level_unit_at_start,");
    if calibrated {
        f.append("dB SPL");
    } else {
        f.append("dBFS");
    }
    lines.push(f);
    lines.push(
        String::from_str("# note,levels are full-scale until calibrated; see the calibrated column"),
    );
    lines.push(
        String::from_str("# note,min and mean and max are over each interval; mean is an energy mean"),
    );
    lines.push(
        String::from_str("# note,any row where dropped_frames increases covers a period missing audio"),
    );
    assert(views(lines@) =~= metadata_text(
        version@,
        started_at@,
        crate::audio::opt_view(device),
        sample_rate_hz@,
        interval_seconds@,
        calibrated,
    ));
    lines
}

/// The columns a log was opened with, and how many rows it has.
pub struct LogRows {
    columns: Vec<String>,
    rows: u64,
}

impl LogRows {
    /// The series ids of the columns, in order.
    pub closed spec fn columns_view(&self) -> Seq<Seq<char>> {
        views(self.columns@)
    }

    /// Rows written so far.
    pub closed spec fn rows_view(&self) -> nat {
        self.rows as nat
    }

    /// A log of `series`, with no rows yet.
    pub fn open(series: &Vec<SeriesInfo>) -> (r: Self)
        ensures
            r.columns_view() == ids_of(series@),
            r.rows_view() == 0,
    {
        LogRows { columns: column_ids(series), rows: 0 }
    }

    /// Rows written so far.
    pub fn rows(&self) -> (r: u64)
        ensures
            r == self.rows_view(),
    {
        self.rows
    }

    /// The series ids of the columns.
    pub fn columns(&self) -> (r: &Vec<String>)
        ensures
            views(r@) == self.columns_view(),
    {
        &self.columns
    }

    /// The row one interval makes, or `None` for an interval with no points,
    /// which writes nothing. `ids[j]` is the series of the `j`-th latest
    /// point and `values[j]` its formatted min, mean and max; `lead` holds
    /// the elapsed time, the calibrated flag and the dropped frame count. The
    /// row has the lead cells and three cells per column.
    pub fn next_row(&self, lead: Vec<String>, ids: &Vec<String>, values: &Vec<[String; 3]>) -> (r: Option<String>)
        requires
            ids@.len() == values@.len(),
        ensures
            ids@.len() == 0 ==> r is None,
            ids@.len() > 0 ==> exists|slots: Seq<Option<usize>>|
                #![trigger is_slot_map(self.columns_view(), views(ids@), slots)]
                is_slot_map(self.columns_view(), views(ids@), slots) && (r matches Some(row)
                    && row@ == joined(
                    row_cells_text(
                        views(lead@),
                        slots,
                        values@.map_values(|v: [String; 3]| views(v@)),
                    ),
                )),
    {
        if ids.len() == 0 {
            return None;
        }
        let slots = row_slots(&self.columns, ids);
        let row = join_cells(&row_cells(lead, &slots, values));
        assert(is_slot_map(self.columns_view(), views(ids@), slots@));
        Some(row)
    }

    /// Count a row that was written.
    pub fn count_row(&mut self)
        requires
            old(self).rows_view() < u64::MAX,
        ensures
            final(self).rows_view() == old(self).rows_view() + 1,
            final(self).columns_view() == old(self).columns_view(),
    {
        self.rows = self.rows + 1;
    }
}

} // verus!
