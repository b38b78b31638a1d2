//! Places of high fire danger, read once from a CSV file.
use vstd::prelude::*;
use crate::number::{Decimal, parse_decimal, parse_decimal_spec, parse_i32, parse_i32_spec};
use crate::text::{chars_of, lines_of, lines_spec, split_on, split_spec, string_of};

verus! {

/// A place of high fire danger.
#[derive(Debug)]
pub struct DangerPlace {
    pub addr: String,
    pub latitude: Decimal,
    pub longitude: Decimal,
    /// The kind of place, or -1 where it is not given as an integer.
    pub kind: i32,
    pub name: String,
}

/// A place as the contracts see it.
pub type DangerPlaceView = (Seq<char>, Decimal, Decimal, i32, Seq<char>);

pub open spec fn place_view(p: DangerPlace) -> DangerPlaceView {
    (p.addr@, p.latitude, p.longitude, p.kind, p.name@)
}

/// A place of one row: address, latitude, longitude, kind and name in
/// columns 0 to 4; an unreadable coordinate counts as 0 and an unreadable
/// kind as -1. Rows with fewer than five columns give none.
pub open spec fn place_row_spec(f: Seq<Seq<char>>) -> Option<DangerPlaceView> {
    if f.len() >= 5 {
        Some(
            (
                f[0],
                match parse_decimal_spec(f[1]) {
                    Some(d) => d,
                    None => Decimal { mantissa: 0, scale: 0 },
                },
                match parse_decimal_spec(f[2]) {
                    Some(d) => d,
                    None => Decimal { mantissa: 0, scale: 0 },
                },
                match parse_i32_spec(f[3]) {
                    Some(k) => k,
                    None => -1i32,
                },
                f[4],
            ),
        )
    } else {
        None
    }
}

pub open spec fn place_rows_spec(lines: Seq<Seq<char>>) -> Seq<DangerPlaceView>
    decreases lines.len(),
{
    if lines.len() == 0 {
        Seq::empty()
    } else {
        let prev = place_rows_spec(lines.drop_last());
        match place_row_spec(split_spec(lines.last(), ',')) {
            Some(p) => prev.push(p),
            None => prev,
        }
    }
}

/// The places of the CSV file: its lines after the header.
pub open spec fn danger_places_spec(csv: Seq<char>) -> Seq<DangerPlaceView> {
    let lines = lines_spec(csv);
    if lines.len() == 0 {
        Seq::empty()
    } else {
        place_rows_spec(lines.drop_first())
    }
}

fn place_row(f: &Vec<Vec<char>>) -> (r: Option<DangerPlace>)
    ensures
        match r {
            Some(p) => place_row_spec(f@.map_values(|x: Vec<char>| x@)) == Some(place_view(p)),
            None => place_row_spec(f@.map_values(|x: Vec<char>| x@)) is None,
        },
{
    if f.len() < 5 {
        return None;
    }
    let lat = match parse_decimal(f[1].as_slice()) {
        Some(d) => d,
        None => Decimal::new(0, 0),
    };
    let lon = match parse_decimal(f[2].as_slice()) {
        Some(d) => d,
        None => Decimal::new(0, 0),
    };
    let kind = match parse_i32(f[3].as_slice()) {
        Some(k) => k,
        None => -1,
    };
    Some(
        DangerPlace {
            addr: string_of(f[0].as_slice()),
            latitude: lat,
            longitude: lon,
            kind,
            name: string_of(f[4].as_slice()),
        },
    )
}

/// Reads the places of the danger-place CSV file (see
/// [`danger_places_spec`]); there is no periodic job for them.
pub fn init_danger_place_sys(csv: &str) -> (r: Vec<DangerPlace>)
    ensures
        r@.map_values(|p: DangerPlace| place_view(p)) == danger_places_spec(csv@),
{
    let cs = chars_of(csv);
    let lines = lines_of(cs.as_slice());
    let ghost ls = lines_spec(cs@);
    let mut out: Vec<DangerPlace> = Vec::new();
    assert(out@.map_values(|p: DangerPlace| place_view(p)) =~= Seq::<DangerPlaceView>::empty());
    if lines.len() == 0 {
        return out;
    }
    let ghost data = ls.drop_first();
    let mut i: usize = 1;
    assert(data.subrange(0, 0) =~= Seq::<Seq<char>>::empty());
    while i < lines.len()
        invariant
            lines@.len() == ls.len(),
            ls.len() >= 1,
            data == ls.drop_first(),
            forall|k: int| 0 <= k < lines@.len() ==> #[trigger] lines@[k]@ == ls[k],
            1 <= i <= lines@.len(),
            out@.map_values(|p: DangerPlace| place_view(p)) == place_rows_spec(
                data.subrange(0, i - 1),
            ),
        decreases lines@.len() - i,
    {
        let fields = split_on(lines[i].as_slice(), ',');
        assert(fields@.map_values(|x: Vec<char>| x@) =~= split_spec(ls[i as int], ','));
        assert(data.subrange(0, i as int).drop_last() =~= data.subrange(0, i - 1));
        let ghost before = out@;
        match place_row(&fields) {
            Some(p) => {
                out.push(p);
                assert(out@.map_values(|p: DangerPlace| place_view(p)) =~= before.map_values(
                    |p: DangerPlace| place_view(p),
                ).push(place_view(out@.last())));
            },
            None => {},
        }
        i = i + 1;
    }
    assert(data.subrange(0, data.len() as int) =~= data);
    out
}

} // verus!
