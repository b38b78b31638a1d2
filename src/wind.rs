//! The wind raster: station positions, pairing of the observation table
//! with them, the coverage mask of the grid, the packing of pixels into
//! RGBA rows and the set of published images.
use vstd::prelude::*;
use crate::feed::{Feed, MAX_START_TIME, next_delay_spec, register_feed, registered_spec};
use crate::scheduler::TaskSchedulerBuilder;
use crate::number::{Decimal, parse_decimal, parse_decimal_spec};
use crate::station_table::cells_view;
use crate::text::{chars_eq, chars_of, lines_of, lines_spec, split_on, split_spec, string_of};

verus! {

/// Grid width and height, in cells of the grid resolution.
pub const GRID_WIDTH: usize = 525;
pub const GRID_HEIGHT: usize = 828;

/// How far from a station, in grid cells along each axis, the raster is
/// drawn.
pub const STATION_RANGE: i64 = 32;

/// How long a published image is kept, in seconds.
pub const IMAGE_RETENTION: u64 = 3600;

/// A weather station's position.
#[derive(Clone, Debug, PartialEq, Eq)]
pub struct Station {
    pub code: String,
    pub latitude: Decimal,
    pub longitude: Decimal,
}

/// A station's code and position, as the contracts see it.
pub type StationView = (Seq<char>, Decimal, Decimal);

pub open spec fn station_view(s: Station) -> StationView {
    (s.code@, s.latitude, s.longitude)
}

/// The station of one row of the station list: columns 0 (code), 5
/// (latitude) and 6 (longitude) filled, column 2 (the date the station
/// closed) empty, and both coordinates readable. Rows with fewer than seven
/// columns give none.
pub open spec fn station_row_spec(f: Seq<Seq<char>>) -> Option<StationView> {
    if f.len() >= 7 && f[0].len() > 0 && f[5].len() > 0 && f[6].len() > 0 && f[2].len() == 0 {
        match (parse_decimal_spec(f[5]), parse_decimal_spec(f[6])) {
            (Some(lat), Some(lon)) => Some((f[0], lat, lon)),
            _ => None,
        }
    } else {
        None
    }
}

pub open spec fn station_rows_spec(lines: Seq<Seq<char>>) -> Seq<StationView>
    decreases lines.len(),
{
    if lines.len() == 0 {
        Seq::empty()
    } else {
        let prev = station_rows_spec(lines.drop_last());
        match station_row_spec(split_spec(lines.last(), ',')) {
            Some(s) => prev.push(s),
            None => prev,
        }
    }
}

/// The stations of the station list CSV: its lines after the header.
pub open spec fn station_list_spec(csv: Seq<char>) -> Seq<StationView> {
    let lines = lines_spec(csv);
    if lines.len() == 0 {
        Seq::empty()
    } else {
        station_rows_spec(lines.drop_first())
    }
}

fn station_row(f: &Vec<Vec<char>>) -> (r: Option<Station>)
    ensures
        match r {
            Some(s) => station_row_spec(f@.map_values(|x: Vec<char>| x@)) == Some(station_view(s)),
            None => station_row_spec(f@.map_values(|x: Vec<char>| x@)) is None,
        },
{
    if f.len() < 7 || f[0].len() == 0 || f[5].len() == 0 || f[6].len() == 0 || f[2].len() != 0 {
        return None;
    }
    match (parse_decimal(f[5].as_slice()), parse_decimal(f[6].as_slice())) {
        (Some(lat), Some(lon)) => Some(
            Station { code: string_of(f[0].as_slice()), latitude: lat, longitude: lon },
        ),
        _ => None,
    }
}

/// Reads the station list CSV (see [`station_list_spec`]).
pub fn parse_station_list(csv: &str) -> (r: Vec<Station>)
    ensures
        r@.map_values(|s: Station| station_view(s)) == station_list_spec(csv@),
{
    let cs = chars_of(csv);
    let lines = lines_of(cs.as_slice());
    let ghost ls = lines_spec(cs@);
    let mut out: Vec<Station> = Vec::new();
    if lines.len() == 0 {
        assert(out@.map_values(|s: Station| station_view(s)) =~= Seq::<StationView>::empty());
        return out;
    }
    let ghost data = ls.drop_first();
    let mut i: usize = 1;
    assert(data.subrange(0, 0) =~= Seq::<Seq<char>>::empty());
    assert(out@.map_values(|s: Station| station_view(s)) =~= Seq::<StationView>::empty());
    while i < lines.len()
        invariant
            lines@.len() == ls.len(),
            ls.len() >= 1,
            data == ls.drop_first(),
            forall|k: int| 0 <= k < lines@.len() ==> #[trigger] lines@[k]@ == ls[k],
            1 <= i <= lines@.len(),
            out@.map_values(|s: Station| station_view(s)) == station_rows_spec(
                data.subrange(0, i - 1),
            ),
        decreases lines@.len() - i,
    {
        let fields = split_on(lines[i].as_slice(), ',');
        assert(fields@.map_values(|x: Vec<char>| x@) =~= split_spec(ls[i as int], ','));
        assert(data.subrange(0, i as int).drop_last() =~= data.subrange(0, i - 1));
        let ghost before = out@;
        match station_row(&fields) {
            Some(s) => {
                out.push(s);
                assert(out@.map_values(|s: Station| station_view(s)) =~= before.map_values(
                    |s: Station| station_view(s),
                ).push(station_view(out@.last())));
            },
            None => {},
        }
        i = i + 1;
    }
    assert(data.subrange(0, data.len() as int) =~= data);
    out
}

/// The index of the last station with the given code, or -1: a code listed
/// twice takes its last position.
pub open spec fn last_station_index(st: Seq<StationView>, code: Seq<char>) -> int
    decreases st.len(),
{
    if st.len() == 0 {
        -1
    } else if st.last().0 == code {
        st.len() - 1
    } else {
        last_station_index(st.drop_last(), code)
    }
}

/// One observation placed at its station: position, wind direction in
/// degrees and speed.
#[derive(Clone, Copy, Debug, PartialEq, Eq, Structural)]
pub struct StationReading {
    pub latitude: Decimal,
    pub longitude: Decimal,
    pub direction: Decimal,
    pub speed: Decimal,
}

/// The reading of one table row: the station named in cell 0 must be known,
/// cells 14 (direction) and 16 (speed) must be readable.
pub open spec fn reading_spec(st: Seq<StationView>, row: Seq<Seq<char>>) -> Option<StationReading> {
    if row.len() > 16 {
        let i = last_station_index(st, row[0]);
        if i < 0 {
            None
        } else {
            match (parse_decimal_spec(row[14]), parse_decimal_spec(row[16])) {
                (Some(dir), Some(vel)) => Some(
                    StationReading {
                        latitude: st[i].1,
                        longitude: st[i].2,
                        direction: dir,
                        speed: vel,
                    },
                ),
                _ => None,
            }
        }
    } else {
        None
    }
}

pub open spec fn readings_spec(st: Seq<StationView>, rows: Seq<Seq<Seq<char>>>) -> Seq<StationReading>
    decreases rows.len(),
{
    if rows.len() == 0 {
        Seq::empty()
    } else {
        let prev = readings_spec(st, rows.drop_last());
        match reading_spec(st, rows.last()) {
            Some(r) => prev.push(r),
            None => prev,
        }
    }
}

fn find_station(stations: &Vec<Station>, code: &Vec<char>) -> (r: Option<usize>)
    ensures
        match r {
            Some(i) => i < stations@.len() && last_station_index(
                stations@.map_values(|s: Station| station_view(s)),
                code@,
            ) == i,
            None => last_station_index(stations@.map_values(|s: Station| station_view(s)), code@)
                == -1,
        },
{
    let ghost sv = stations@.map_values(|s: Station| station_view(s));
    let mut i: usize = stations.len();
    assert(sv.subrange(0, i as int) =~= sv);
    while i > 0
        invariant
            i <= stations@.len(),
            sv == stations@.map_values(|s: Station| station_view(s)),
            last_station_index(sv, code@) == last_station_index(sv.subrange(0, i as int), code@),
        decreases i,
    {
        assert(sv.subrange(0, i as int).drop_last() =~= sv.subrange(0, i - 1));
        let cs = chars_of(stations[i - 1].code.as_str());
        if chars_eq(cs.as_slice(), code.as_slice()) {
            return Some(i - 1);
        }
        i = i - 1;
    }
    None
}

/// The readings of the observation table's rows, in order: each row whose
/// station is known and whose direction and speed are readable.
pub fn station_readings(stations: &Vec<Station>, rows: &Vec<Vec<Vec<char>>>) -> (r: Vec<StationReading>)
    ensures
        r@ == readings_spec(
            stations@.map_values(|s: Station| station_view(s)),
            rows@.map_values(|row: Vec<Vec<char>>| cells_view(row)),
        ),
{
    let ghost sv = stations@.map_values(|s: Station| station_view(s));
    let ghost rv = rows@.map_values(|row: Vec<Vec<char>>| cells_view(row));
    let mut out: Vec<StationReading> = Vec::new();
    let mut i: usize = 0;
    assert(rv.subrange(0, 0) =~= Seq::<Seq<Seq<char>>>::empty());
    while i < rows.len()
        invariant
            0 <= i <= rows@.len(),
            sv == stations@.map_values(|s: Station| station_view(s)),
            rv == rows@.map_values(|row: Vec<Vec<char>>| cells_view(row)),
            out@ == readings_spec(sv, rv.subrange(0, i as int)),
        decreases rows@.len() - i,
    {
        assert(rv.subrange(0, i + 1).drop_last() =~= rv.subrange(0, i as int));
        let row = &rows[i];
        assert(cells_view(*row) == rv[i as int]);
        if row.len() > 16 {
            match find_station(stations, &row[0]) {
                Some(k) => {
                    match (parse_decimal(row[14].as_slice()), parse_decimal(row[16].as_slice())) {
                        (Some(dir), Some(vel)) => {
                            out.push(
                                StationReading {
                                    latitude: stations[k].latitude,
                                    longitude: stations[k].longitude,
                                    direction: dir,
                                    speed: vel,
                                },
                            );
                        },
                        _ => {},
                    }
                },
                None => {},
            }
        }
        i = i + 1;
    }
    assert(rv.subrange(0, rv.len() as int) =~= rv);
    out
}

/// A grid cell is covered when some station lies within [`STATION_RANGE`]
/// cells of it along both axes.
pub open spec fn covered_spec(centres: Seq<(i64, i64)>, x: int, y: int) -> bool {
    exists|i: int|
        0 <= i < centres.len() && -STATION_RANGE <= x - (#[trigger] centres[i]).0 <= STATION_RANGE
            && -STATION_RANGE <= y - centres[i].1 <= STATION_RANGE
}

fn covered(centres: &[(i64, i64)], x: usize, y: usize) -> (r: bool)
    ensures
        r == covered_spec(centres@, x as int, y as int),
{
    let mut i: usize = 0;
    while i < centres.len()
        invariant
            0 <= i <= centres@.len(),
            forall|j: int|
                0 <= j < i ==> !(-STATION_RANGE <= x - (#[trigger] centres@[j]).0 <= STATION_RANGE
                    && -STATION_RANGE <= y - centres@[j].1 <= STATION_RANGE),
        decreases centres@.len() - i,
    {
        let (cx, cy) = centres[i];
        let dx = x as i128 - cx as i128;
        let dy = y as i128 - cy as i128;
        if -32 <= dx && dx <= 32 && -32 <= dy && dy <= 32 {
            return true;
        }
        i = i + 1;
    }
    false
}

/// The coverage mask of a `width` x `height` grid: `mask[y][x]` says
/// whether the cell `(x, y)` is covered by a station at the given grid
/// cells.
pub fn coverage_mask(centres: &[(i64, i64)], width: usize, height: usize) -> (mask: Vec<Vec<bool>>)
    ensures
        mask@.len() == height,
        forall|y: int| 0 <= y < height ==> (#[trigger] mask@[y])@.len() == width,
        forall|x: int, y: int|
            0 <= x < width && 0 <= y < height ==> (#[trigger] mask@[y]@[x] == covered_spec(
                centres@,
                x,
                y,
            )),
{
    let mut mask: Vec<Vec<bool>> = Vec::new();
    let mut y: usize = 0;
    while y < height
        invariant
            0 <= y <= height,
            mask@.len() == y,
            forall|yy: int| 0 <= yy < y ==> (#[trigger] mask@[yy])@.len() == width,
            forall|xx: int, yy: int|
                0 <= xx < width && 0 <= yy < y ==> (#[trigger] mask@[yy]@[xx] == covered_spec(
                    centres@,
                    xx,
                    yy,
                )),
        decreases height - y,
    {
        let mut row: Vec<bool> = Vec::new();
        let mut x: usize = 0;
        while x < width
            invariant
                0 <= x <= width,
                row@.len() == x,
                forall|xx: int| 0 <= xx < x ==> row@[xx] == covered_spec(centres@, xx, y as int),
            decreases width - x,
        {
            row.push(covered(centres, x, y));
            x = x + 1;
        }
        mask.push(row);
        y = y + 1;
    }
    mask
}

/// The four bytes of one pixel: red, green, blue (always 0) and alpha (255
/// where covered, 0 elsewhere).
pub open spec fn pixel_spec(red: u8, green: u8, covered: bool) -> Seq<u8> {
    seq![red, green, 0u8, if covered { 255u8 } else { 0u8 }]
}

/// The first `n` pixels of grid row `y`.
pub open spec fn row_bytes_spec(
    red: Seq<Seq<u8>>,
    green: Seq<Seq<u8>>,
    mask: Seq<Seq<bool>>,
    y: int,
    n: int,
) -> Seq<u8>
    decreases n,
{
    if n <= 0 {
        Seq::empty()
    } else {
        row_bytes_spec(red, green, mask, y, n - 1) + pixel_spec(
            red[y][n - 1],
            green[y][n - 1],
            mask[y][n - 1],
        )
    }
}

/// The first `k` rows of the image: grid rows `height - 1` down to
/// `height - k`, each `width` pixels (rows run north to south while grid
/// `y` grows northwards).
pub open spec fn image_bytes_spec(
    red: Seq<Seq<u8>>,
    green: Seq<Seq<u8>>,
    mask: Seq<Seq<bool>>,
    width: int,
    height: int,
    k: int,
) -> Seq<u8>
    decreases k,
{
    if k <= 0 {
        Seq::empty()
    } else {
        image_bytes_spec(red, green, mask, width, height, k - 1) + row_bytes_spec(
            red,
            green,
            mask,
            height - k,
            width,
        )
    }
}

pub open spec fn grid_u8_view(g: Seq<Vec<u8>>) -> Seq<Seq<u8>> {
    g.map_values(|r: Vec<u8>| r@)
}

pub open spec fn grid_bool_view(g: Seq<Vec<bool>>) -> Seq<Seq<bool>> {
    g.map_values(|r: Vec<bool>| r@)
}

/// Whether three grids all have `height` rows of `width` cells.
pub open spec fn grids_fit(
    red: Seq<Vec<u8>>,
    green: Seq<Vec<u8>>,
    mask: Seq<Vec<bool>>,
    width: int,
    height: int,
) -> bool {
    &&& red.len() == height && green.len() == height && mask.len() == height
    &&& forall|y: int| 0 <= y < height ==> (#[trigger] red[y])@.len() == width
    &&& forall|y: int| 0 <= y < height ==> (#[trigger] green[y])@.len() == width
    &&& forall|y: int| 0 <= y < height ==> (#[trigger] mask[y])@.len() == width
}

/// The RGBA bytes of the raster: rows from the top of the grid down, four
/// bytes a pixel (see [`image_bytes_spec`]).
pub fn pack_pixels(
    red: &Vec<Vec<u8>>,
    green: &Vec<Vec<u8>>,
    mask: &Vec<Vec<bool>>,
    width: usize,
    height: usize,
) -> (r: Vec<u8>)
    requires
        grids_fit(red@, green@, mask@, width as int, height as int),
    ensures
        r@ == image_bytes_spec(
            grid_u8_view(red@),
            grid_u8_view(green@),
            grid_bool_view(mask@),
            width as int,
            height as int,
            height as int,
        ),
{
    let ghost rv = grid_u8_view(red@);
    let ghost gv = grid_u8_view(green@);
    let ghost mv = grid_bool_view(mask@);
    let mut out: Vec<u8> = Vec::new();
    let mut k: usize = 0;
    while k < height
        invariant
            grids_fit(red@, green@, mask@, width as int, height as int),
            rv == grid_u8_view(red@),
            gv == grid_u8_view(green@),
            mv == grid_bool_view(mask@),
            0 <= k <= height,
            out@ == image_bytes_spec(rv, gv, mv, width as int, height as int, k as int),
        decreases height - k,
    {
        let y = height - 1 - k;
        let ghost pre = out@;
        let mut x: usize = 0;
        while x < width
            invariant
                grids_fit(red@, green@, mask@, width as int, height as int),
                rv == grid_u8_view(red@),
                gv == grid_u8_view(green@),
                mv == grid_bool_view(mask@),
                y < height,
                0 <= x <= width,
                out@ == pre + row_bytes_spec(rv, gv, mv, y as int, x as int),
            decreases width - x,
        {
            let ghost before = out@;
            let rr = red[y][x];
            let gg = green[y][x];
            let aa: u8 = if mask[y][x] {
                255
            } else {
                0
            };
            out.push(rr);
            out.push(gg);
            out.push(0);
            out.push(aa);
            assert(rv[y as int][x as int] == rr);
            assert(gv[y as int][x as int] == gg);
            assert(mv[y as int][x as int] == mask@[y as int]@[x as int]);
            assert(out@ =~= before + pixel_spec(rr, gg, mask@[y as int]@[x as int]));
            assert(out@ =~= pre + row_bytes_spec(rv, gv, mv, y as int, x + 1));
            x = x + 1;
        }
        k = k + 1;
    }
    out
}

proof fn lemma_row_bytes(red: Seq<Seq<u8>>, green: Seq<Seq<u8>>, mask: Seq<Seq<bool>>, y: int, n: int)
    requires
        n >= 0,
    ensures
        row_bytes_spec(red, green, mask, y, n).len() == 4 * n,
        forall|x: int, c: int|
            0 <= x < n && 0 <= c < 4 ==> #[trigger] row_bytes_spec(red, green, mask, y, n)[4 * x
                + c] == pixel_spec(red[y][x], green[y][x], mask[y][x])[c],
    decreases n,
{
    if n > 0 {
        lemma_row_bytes(red, green, mask, y, n - 1);
        let prev = row_bytes_spec(red, green, mask, y, n - 1);
        let cur = row_bytes_spec(red, green, mask, y, n);
        assert forall|x: int, c: int| 0 <= x < n && 0 <= c < 4 implies #[trigger] cur[4 * x + c]
            == pixel_spec(red[y][x], green[y][x], mask[y][x])[c] by {
            if x < n - 1 {
                assert(cur[4 * x + c] == prev[4 * x + c]);
            }
        }
    }
}

proof fn lemma_image_bytes(
    red: Seq<Seq<u8>>,
    green: Seq<Seq<u8>>,
    mask: Seq<Seq<bool>>,
    width: int,
    height: int,
    k: int,
)
    requires
        k >= 0,
        width >= 0,
    ensures
        image_bytes_spec(red, green, mask, width, height, k).len() == 4 * width * k,
        forall|j: int, x: int, c: int|
            0 <= j < k && 0 <= x < width && 0 <= c < 4 ==> #[trigger] image_bytes_spec(
                red,
                green,
                mask,
                width,
                height,
                k,
            )[4 * width * j + (4 * x + c)] == pixel_spec(
                red[height - 1 - j][x],
                green[height - 1 - j][x],
                mask[height - 1 - j][x],
            )[c],
    decreases k,
{
    if k > 0 {
        lemma_image_bytes(red, green, mask, width, height, k - 1);
        lemma_row_bytes(red, green, mask, height - k, width);
        let prev = image_bytes_spec(red, green, mask, width, height, k - 1);
        let cur = image_bytes_spec(red, green, mask, width, height, k);
        assert(4 * width * (k - 1) + 4 * width == 4 * width * k) by (nonlinear_arith);
        assert forall|j: int, x: int, c: int|
            0 <= j < k && 0 <= x < width && 0 <= c < 4 implies #[trigger] cur[4 * width * j + (4
                * x + c)] == pixel_spec(
                red[height - 1 - j][x],
                green[height - 1 - j][x],
                mask[height - 1 - j][x],
            )[c] by {
            if j < k - 1 {
                assert(4 * width * j + (4 * x + c) < 4 * width * (k - 1)) by (nonlinear_arith)
                    requires
                        0 <= j < k - 1,
                        0 <= x < width,
                        0 <= c < 4,
                ;
                assert(cur[4 * width * j + (4 * x + c)] == prev[4 * width * j + (4 * x + c)]);
            } else {
                assert(4 * width * j == 4 * width * (k - 1));
                let row = row_bytes_spec(red, green, mask, height - k, width);
                assert(cur[4 * width * j + (4 * x + c)] == row[4 * x + c]);
            }
        }
    }
}

/// Where a pixel's bytes lie: the pixel `(x, y)` of the grid starts at
/// byte `((height - 1 - y) * width + x) * 4` of the packed image.
pub open spec fn pixel_offset(width: int, height: int, x: int, y: int) -> int {
    ((height - 1 - y) * width + x) * 4
}

/// Each pixel of the packed image holds its grid cell's red and green
/// values, a blue of 0, and an alpha of 255 where the cell is covered and
/// 0 elsewhere.
pub proof fn lemma_packed_pixel(
    red: Seq<Seq<u8>>,
    green: Seq<Seq<u8>>,
    mask: Seq<Seq<bool>>,
    width: int,
    height: int,
    x: int,
    y: int,
)
    requires
        0 <= x < width,
        0 <= y < height,
    ensures
        ({
            let img = image_bytes_spec(red, green, mask, width, height, height);
            let o = pixel_offset(width, height, x, y);
            &&& img.len() == 4 * width * height
            &&& img[o] == red[y][x]
            &&& img[o + 1] == green[y][x]
            &&& img[o + 2] == 0
            &&& img[o + 3] == if mask[y][x] { 255u8 } else { 0u8 }
        }),
{
    lemma_image_bytes(red, green, mask, width, height, height);
    let j = height - 1 - y;
    assert(pixel_offset(width, height, x, y) == 4 * width * j + 4 * x) by (nonlinear_arith)
        requires
            j == height - 1 - y,
    ;
    let img = image_bytes_spec(red, green, mask, width, height, height);
    assert(img[4 * width * j + (4 * x + 0)] == red[y][x]);
    assert(img[4 * width * j + (4 * x + 1)] == green[y][x]);
    assert(img[4 * width * j + (4 * x + 2)] == 0);
    assert(img[4 * width * j + (4 * x + 3)] == if mask[y][x] { 255u8 } else { 0u8 });
}

/// The raster's alpha is 255 exactly on the cells within [`STATION_RANGE`]
/// of some station along both axes, and 0 on every other cell: the mask
/// that [`coverage_mask`] builds, packed by [`pack_pixels`], puts at each
/// pixel's alpha byte 255 if and only if the cell is covered.
pub proof fn lemma_alpha_exactly_covered(
    centres: Seq<(i64, i64)>,
    red: Seq<Seq<u8>>,
    green: Seq<Seq<u8>>,
    mask: Seq<Seq<bool>>,
    width: int,
    height: int,
    x: int,
    y: int,
)
    requires
        0 <= x < width,
        0 <= y < height,
        forall|xx: int, yy: int|
            0 <= xx < width && 0 <= yy < height ==> (#[trigger] mask[yy][xx] == covered_spec(
                centres,
                xx,
                yy,
            )),
    ensures
        ({
            let a = image_bytes_spec(red, green, mask, width, height, height)[pixel_offset(
                width,
                height,
                x,
                y,
            ) + 3];
            &&& a == 255 <==> covered_spec(centres, x, y)
            &&& a == 0 <==> !covered_spec(centres, x, y)
        }),
{
    lemma_packed_pixel(red, green, mask, width, height, x, y);
    assert(mask[y][x] == covered_spec(centres, x, y));
}

/// The PNG file of an RGBA image with eight bits a channel.
pub uninterp spec fn png_rgba_of(width: u32, height: u32, pixels: Seq<u8>) -> Option<Seq<u8>>;

/// Relies on `png::Encoder` (with `set_color(Rgba)` and `set_depth(Eight)`),
/// its `write_header`, and the writer's `write_image_data` and `finish`: the
/// file, or the encoder's error, depends on the arguments alone.
#[verifier::external_body]
fn encode_png(width: u32, height: u32, pixels: &[u8]) -> (r: Result<Vec<u8>, String>)
    ensures
        match r {
            Ok(bytes) => png_rgba_of(width, height, pixels@) == Some(bytes@),
            Err(_) => png_rgba_of(width, height, pixels@) is None,
        },
{
    let mut out: Vec<u8> = Vec::new();
    let mut enc = png::Encoder::new(&mut out, width, height);
    enc.set_color(png::ColorType::Rgba);
    enc.set_depth(png::BitDepth::Eight);
    let mut writer = enc.write_header().map_err(|e| e.to_string())?;
    writer.write_image_data(pixels).map_err(|e| e.to_string())?;
    writer.finish().map_err(|e| e.to_string())?;
    Ok(out)
}

/// Packs the raster's channels and encodes them as an RGBA PNG.
pub fn encode_wind_image(
    red: &Vec<Vec<u8>>,
    green: &Vec<Vec<u8>>,
    mask: &Vec<Vec<bool>>,
    width: u32,
    height: u32,
) -> (r: Result<Vec<u8>, String>)
    requires
        grids_fit(red@, green@, mask@, width as int, height as int),
    ensures
        match r {
            Ok(bytes) => png_rgba_of(
                width,
                height,
                image_bytes_spec(
                    grid_u8_view(red@),
                    grid_u8_view(green@),
                    grid_bool_view(mask@),
                    width as int,
                    height as int,
                    height as int,
                ),
            ) == Some(bytes@),
            Err(_) => png_rgba_of(
                width,
                height,
                image_bytes_spec(
                    grid_u8_view(red@),
                    grid_u8_view(green@),
                    grid_bool_view(mask@),
                    width as int,
                    height as int,
                    height as int,
                ),
            ) is None,
        },
{
    let pixels = pack_pixels(red, green, mask, width as usize, height as usize);
    encode_png(width, height, pixels.as_slice())
}

/// A published image: its id (the second it was made at) and its bytes.
pub type ImageView = (u64, Seq<u8>);

/// An image made at second `id` is still kept at second `now`: it is
/// dropped only once `id + IMAGE_RETENTION < now`.
pub open spec fn image_fresh_spec(id: u64, now: u64) -> bool {
    now <= id + IMAGE_RETENTION
}

/// The images still kept at `now`, in order.
pub open spec fn fresh_images_spec(s: Seq<ImageView>, now: u64) -> Seq<ImageView>
    decreases s.len(),
{
    if s.len() == 0 {
        Seq::empty()
    } else {
        let prev = fresh_images_spec(s.drop_last(), now);
        if image_fresh_spec(s.last().0, now) {
            prev.push(s.last())
        } else {
            prev
        }
    }
}

/// The index of the image with the given id, or -1.
pub open spec fn image_index(s: Seq<ImageView>, id: u64) -> int
    decreases s.len(),
{
    if s.len() == 0 {
        -1
    } else if s.last().0 == id {
        s.len() - 1
    } else {
        image_index(s.drop_last(), id)
    }
}

/// The images after storing `bytes` under `id`: an image with that id is
/// replaced in place, otherwise the image is added last.
pub open spec fn set_image_spec(s: Seq<ImageView>, id: u64, bytes: Seq<u8>) -> Seq<ImageView> {
    let i = image_index(s, id);
    if i < 0 {
        s.push((id, bytes))
    } else {
        s.update(i, (id, bytes))
    }
}

/// What publishing does: drop the images older than [`IMAGE_RETENTION`],
/// then store the new one.
pub open spec fn publish_spec(s: Seq<ImageView>, id: u64, bytes: Seq<u8>, now: u64) -> Seq<
    ImageView,
> {
    set_image_spec(fresh_images_spec(s, now), id, bytes)
}

fn copy_bytes(b: &Vec<u8>) -> (r: Vec<u8>)
    ensures
        r@ == b@,
{
    let mut r: Vec<u8> = Vec::new();
    let mut i: usize = 0;
    while i < b.len()
        invariant
            0 <= i <= b@.len(),
            r@ == b@.subrange(0, i as int),
        decreases b@.len() - i,
    {
        r.push(b[i]);
        i = i + 1;
        assert(r@ =~= b@.subrange(0, i as int));
    }
    assert(b@.subrange(0, b@.len() as int) =~= b@);
    r
}

/// The published wind images, by id.
pub struct WindImages {
    images: Vec<(u64, Vec<u8>)>,
}

impl View for WindImages {
    type V = Seq<ImageView>;

    closed spec fn view(&self) -> Seq<ImageView> {
        self.images@.map_values(|e: (u64, Vec<u8>)| (e.0, e.1@))
    }
}

impl WindImages {
    /// No images.
    pub fn new() -> (r: Self)
        ensures
            r@ == Seq::<ImageView>::empty(),
    {
        let r = WindImages { images: Vec::new() };
        assert(r@ =~= Seq::<ImageView>::empty());
        r
    }

    fn index_of(&self, id: u64) -> (r: Option<usize>)
        ensures
            match r {
                Some(i) => i < self@.len() && image_index(self@, id) == i,
                None => image_index(self@, id) == -1,
            },
    {
        let ghost s = self@;
        let mut i: usize = self.images.len();
        assert(s.subrange(0, i as int) =~= s);
        while i > 0
            invariant
                s == self@,
                i <= s.len(),
                s.len() == self.images@.len(),
                image_index(s, id) == image_index(s.subrange(0, i as int), id),
            decreases i,
        {
            assert(s.subrange(0, i as int).drop_last() =~= s.subrange(0, i - 1));
            if self.images[i - 1].0 == id {
                return Some(i - 1);
            }
            i = i - 1;
        }
        None
    }

    /// The image stored under `id`.
    pub fn get(&self, id: u64) -> (r: Option<Vec<u8>>)
        ensures
            match r {
                Some(b) => image_index(self@, id) >= 0 && b@ == self@[image_index(self@, id)].1,
                None => image_index(self@, id) == -1,
            },
    {
        match self.index_of(id) {
            Some(i) => Some(copy_bytes(&self.images[i].1)),
            None => None,
        }
    }

    /// Publishes `bytes` under `id` at second `now` (see [`publish_spec`]).
    pub fn publish(&mut self, id: u64, bytes: Vec<u8>, now: u64)
        ensures
            final(self)@ == publish_spec(old(self)@, id, bytes@, now),
    {
        let ghost s = self@;
        let mut kept: Vec<(u64, Vec<u8>)> = Vec::new();
        let mut i: usize = 0;
        assert(s.subrange(0, 0) =~= Seq::<ImageView>::empty());
        while i < self.images.len()
            invariant
                s == self@,
                0 <= i <= s.len(),
                s.len() == self.images@.len(),
                kept@.map_values(|e: (u64, Vec<u8>)| (e.0, e.1@)) == fresh_images_spec(
                    s.subrange(0, i as int),
                    now,
                ),
            decreases s.len() - i,
        {
            assert(s.subrange(0, i + 1).drop_last() =~= s.subrange(0, i as int));
            let t = self.images[i].0;
            if now <= t || now - t <= IMAGE_RETENTION {
                let ghost before = kept@.map_values(|e: (u64, Vec<u8>)| (e.0, e.1@));
                let copy = copy_bytes(&self.images[i].1);
                kept.push((t, copy));
                assert(kept@.map_values(|e: (u64, Vec<u8>)| (e.0, e.1@)) =~= before.push(s[i as int]));
            }
            i = i + 1;
        }
        assert(s.subrange(0, s.len() as int) =~= s);
        self.images = kept;
        let ghost fresh = self@;
        match self.index_of(id) {
            Some(k) => {
                self.images.set(k, (id, bytes));
                assert(self@ =~= fresh.update(k as int, (id, bytes@)));
            },
            None => {
                self.images.push((id, bytes));
                assert(self@ =~= fresh.push((id, bytes@)));
            },
        }
    }
}

/// After publishing, the new image is found under its id.
pub proof fn lemma_published_image_found(s: Seq<ImageView>, id: u64, bytes: Seq<u8>, now: u64)
    ensures
        ({
            let t = publish_spec(s, id, bytes, now);
            let i = image_index(t, id);
            0 <= i < t.len() && t[i] == (id, bytes)
        }),
{
    let f = fresh_images_spec(s, now);
    let i = image_index(f, id);
    lemma_image_index_bounds(f, id);
    if i < 0 {
        let t = f.push((id, bytes));
        assert(t.drop_last() =~= f);
    } else {
        let t = f.update(i, (id, bytes));
        lemma_image_index_update(f, id, i, bytes);
    }
}

proof fn lemma_image_index_bounds(s: Seq<ImageView>, id: u64)
    ensures
        -1 <= image_index(s, id) < s.len(),
        image_index(s, id) >= 0 ==> s[image_index(s, id)].0 == id,
    decreases s.len(),
{
    if s.len() > 0 && s.last().0 != id {
        lemma_image_index_bounds(s.drop_last(), id);
    }
}

proof fn lemma_image_index_update(s: Seq<ImageView>, id: u64, i: int, bytes: Seq<u8>)
    requires
        0 <= i < s.len(),
        image_index(s, id) == i,
    ensures
        image_index(s.update(i, (id, bytes)), id) == i,
    decreases s.len(),
{
    lemma_image_index_bounds(s, id);
    if i < s.len() - 1 {
        assert(s.update(i, (id, bytes)).drop_last() =~= s.drop_last().update(i, (id, bytes)));
        lemma_image_index_update(s.drop_last(), id, i, bytes);
    }
}

/// Registers the wind raster job; `first_run_ok` is the outcome of the run made
/// at start-up, which decides when the job first runs.
pub fn init_wind_sys<J>(scheduler: &mut TaskSchedulerBuilder<J>, job: J, first_run_ok: bool, now: u64)
    requires
        now <= MAX_START_TIME,
    ensures
        registered_spec(
            old(scheduler).tasks_spec(),
            final(scheduler).tasks_spec(),
            job,
            now,
            next_delay_spec(Feed::Wind, first_run_ok),
        ),
{
    register_feed(scheduler, Feed::Wind, job, first_run_ok, now);
}

/// Publishes a rasterization: the image joins the kept images (see
/// [`publish_spec`]) and its metadata replaces the previous metadata.
pub fn update_wind_map(
    images: &mut WindImages,
    metadata_slot: &mut String,
    id: u64,
    metadata: String,
    img: Vec<u8>,
    now: u64,
)
    ensures
        final(images)@ == publish_spec(old(images)@, id, img@, now),
        final(metadata_slot)@ == metadata@,
{
    images.publish(id, img, now);
    *metadata_slot = metadata;
}

/// What a wind run publishes.
#[derive(Clone, Copy, Debug, PartialEq, Eq, Structural)]
pub enum WindPlan {
    /// No station could be read: publish the error metadata and no image,
    /// and count the run as a success.
    Fallback,
    /// Rasterize the readings.
    Raster,
}

/// The plan of a wind run: the fallback exactly when no reading was made.
pub fn plan_wind_run(readings: &Vec<StationReading>) -> (r: WindPlan)
    ensures
        (r == WindPlan::Fallback) == (readings@.len() == 0),
{
    if readings.len() == 0 {
        WindPlan::Fallback
    } else {
        WindPlan::Raster
    }
}

} // verus!
