//! Geohash cells over coordinates held in units of 1e-7 degree.
use vstd::prelude::*;
use vstd::arithmetic::div_mod::lemma_fundamental_div_mod_converse;

verus! {

/// The 32 symbols of a cell key.
pub const BASE32: &'static str = "0123456789bcdefghjkmnpqrstuvwxyz";

/// Default key length: cells of about 20 km by 20 km.
pub const PRECISION: usize = 4;

/// Half the latitude range, in 1e-7 degree.
pub const LAT_HALF_SPAN: i64 = 900_000_000;

/// Half the longitude range, in 1e-7 degree.
pub const LON_HALF_SPAN: i64 = 1_800_000_000;

pub open spec fn base32() -> Seq<char> {
    BASE32@
}

pub open spec fn two_pow(k: nat) -> nat
    decreases k,
{
    if k == 0 {
        1
    } else {
        2 * two_pow((k - 1) as nat)
    }
}

/// Position of a coordinate within its axis, from 0 (the low end) to
/// `2 * half` (the high end); values beyond the axis stick to its ends.
pub open spec fn axis_offset(v: int, half: int) -> int {
    if v < -half {
        0
    } else if v > half {
        2 * half
    } else {
        v + half
    }
}

/// After `k` halvings of an axis of length `d`, the slice (counted from the
/// low end, the last one closed at the top) that holds offset `n`.
pub open spec fn slice_index(n: int, d: int, k: nat) -> int {
    if n >= d {
        two_pow(k) - 1
    } else {
        (n * two_pow(k)) / d
    }
}

/// What is left of offset `n` within its slice after `k` halvings, scaled by `2^k`.
pub open spec fn slice_remainder(n: int, d: int, k: nat) -> int {
    n * two_pow(k) - d * slice_index(n, d, k)
}

/// Bit `k` of an axis: whether the `k+1`-th halving keeps the upper half.
pub open spec fn axis_bit(n: int, d: int, k: nat) -> bool {
    slice_index(n, d, k + 1) % 2 == 1
}

/// Bit `i` of the interleaved code: longitude on even positions, latitude on odd.
pub open spec fn code_bit(lat: int, lon: int, i: nat) -> bool {
    if i % 2 == 0 {
        axis_bit(axis_offset(lon, LON_HALF_SPAN as int), 2 * LON_HALF_SPAN, i / 2)
    } else {
        axis_bit(axis_offset(lat, LAT_HALF_SPAN as int), 2 * LAT_HALF_SPAN, i / 2)
    }
}

/// The number written by the first `t` bits of symbol `j`, most significant first.
pub open spec fn symbol_prefix(lat: int, lon: int, j: nat, t: nat) -> int
    decreases t,
{
    if t == 0 {
        0
    } else {
        2 * symbol_prefix(lat, lon, j, (t - 1) as nat) + if code_bit(lat, lon, 5 * j + (t - 1) as nat) {
            1int
        } else {
            0int
        }
    }
}

/// Symbol `j` of the key of a point: five consecutive bits of the code.
pub open spec fn symbol_of(lat: int, lon: int, j: nat) -> char {
    base32()[symbol_prefix(lat, lon, j, 5)]
}

/// The key of length `p` of the point (`lat`, `lon`).
pub open spec fn geohash_of(lat: int, lon: int, p: nat) -> Seq<char> {
    Seq::new(p, |j: int| symbol_of(lat, lon, j as nat))
}

proof fn lemma_symbol_prefix_bound(lat: int, lon: int, j: nat, t: nat)
    ensures
        0 <= symbol_prefix(lat, lon, j, t) < two_pow(t),
    decreases t,
{
    if t > 0 {
        lemma_symbol_prefix_bound(lat, lon, j, (t - 1) as nat);
    }
}

/// One halving step: the remainder `r` of offset `n` after `k` halvings
/// determines the next bit and the next remainder.
proof fn lemma_halving_step(n: int, d: int, k: nat, r: int)
    requires
        d > 0,
        0 <= n <= d,
        r == slice_remainder(n, d, k),
        0 <= r <= d,
        r == d <==> n == d,
    ensures
        ({
            let b: int = if 2 * r >= d { 1 } else { 0 };
            &&& slice_index(n, d, k + 1) == 2 * slice_index(n, d, k) + b
            &&& 2 * r - d * b == slice_remainder(n, d, k + 1)
            &&& 0 <= 2 * r - d * b <= d
            &&& (2 * r - d * b == d <==> n == d)
            &&& (axis_bit(n, d, k) <==> b == 1)
        }),
{
    let b: int = if 2 * r >= d { 1 } else { 0 };
    let q = slice_index(n, d, k);
    let pow_k = two_pow(k);
    let pow_next = two_pow(k + 1);
    assert(pow_next == 2 * pow_k);
    if n < d {
        assert(r == n * pow_k - d * q);
        assert(n * pow_next == 2 * (n * pow_k)) by (nonlinear_arith)
            requires pow_next == 2 * pow_k;
        assert(n * pow_next == (2 * q + b) * d + (2 * r - d * b)) by (nonlinear_arith)
            requires
                n * pow_next == 2 * (n * pow_k),
                r == n * pow_k - d * q,
        ;
        lemma_fundamental_div_mod_converse(n * pow_next, d, 2 * q + b, 2 * r - d * b);
        assert(slice_index(n, d, k + 1) == 2 * q + b);
        assert(slice_remainder(n, d, k + 1) == n * pow_next - d * (2 * q + b));
        assert(n * pow_next - d * (2 * q + b) == 2 * r - d * b) by (nonlinear_arith)
            requires n * pow_next == (2 * q + b) * d + (2 * r - d * b);
    } else {
        assert(n == d);
        assert(q == pow_k - 1);
        assert(b == 1);
        assert(slice_index(n, d, k + 1) == pow_next - 1);
        assert(slice_remainder(n, d, k + 1) == n * pow_next - d * (pow_next - 1));
        assert(n * pow_next - d * (pow_next - 1) == d) by (nonlinear_arith)
            requires n == d;
    }
    assert((2 * q + b) % 2 == b) by (nonlinear_arith)
        requires b == 0 || b == 1;
}

/// Offset of `v` on an axis of half-length `half`, clamped to the axis.
fn offset_on_axis(v: i64, half: i64) -> (n: u64)
    requires
        0 < half <= 1_800_000_000,
    ensures
        n == axis_offset(v as int, half as int),
{
    if v < -half {
        0
    } else if v > half {
        (2 * half) as u64
    } else {
        (v + half) as u64
    }
}

/// Cell key of length `precision` of the point (`lat`, `lon`), both in 1e-7 degree.
/// Each symbol holds five bits; bits alternate longitude first, then latitude,
/// each one telling whether the point lies in the upper half of its interval.
pub fn encode_with_precision(lat: i64, lon: i64, precision: usize) -> (r: String)
    ensures
        r@ == geohash_of(lat as int, lon as int, precision as nat),
{
    let ghost lat_i = lat as int;
    let ghost lon_i = lon as int;
    let d_lat: u64 = 2 * (LAT_HALF_SPAN as u64);
    let d_lon: u64 = 2 * (LON_HALF_SPAN as u64);
    let n_lat = offset_on_axis(lat, LAT_HALF_SPAN);
    let n_lon = offset_on_axis(lon, LON_HALF_SPAN);
    let mut r_lat: u64 = n_lat;
    let mut r_lon: u64 = n_lon;
    let mut hash = String::new();
    let mut j: usize = 0;
    proof {
        reveal_strlit("0123456789bcdefghjkmnpqrstuvwxyz");
    }
    assert(hash@ =~= geohash_of(lat_i, lon_i, 0));
    assert(two_pow(0) == 1);
    assert(slice_remainder(n_lat as int, d_lat as int, 0) == n_lat);
    assert(slice_remainder(n_lon as int, d_lon as int, 0) == n_lon);
    while j < precision
        invariant
            j <= precision,
            BASE32@.len() == 32,
            d_lat == 2 * LAT_HALF_SPAN,
            d_lon == 2 * LON_HALF_SPAN,
            n_lat == axis_offset(lat_i, LAT_HALF_SPAN as int),
            n_lon == axis_offset(lon_i, LON_HALF_SPAN as int),
            hash@ == geohash_of(lat_i, lon_i, j as nat),
            r_lat == slice_remainder(n_lat as int, d_lat as int, ((5 * j) / 2) as nat),
            r_lon == slice_remainder(n_lon as int, d_lon as int, ((5 * j + 1) / 2) as nat),
            r_lat <= d_lat,
            r_lon <= d_lon,
            r_lat == d_lat <==> n_lat == d_lat,
            r_lon == d_lon <==> n_lon == d_lon,
        decreases precision - j,
    {
        let mut idx: usize = 0;
        let mut t: usize = 0;
        while t < 5
            invariant
                t <= 5,
                j < precision,
                d_lat == 2 * LAT_HALF_SPAN,
                d_lon == 2 * LON_HALF_SPAN,
                n_lat == axis_offset(lat_i, LAT_HALF_SPAN as int),
                n_lon == axis_offset(lon_i, LON_HALF_SPAN as int),
                idx == symbol_prefix(lat_i, lon_i, j as nat, t as nat),
                r_lat == slice_remainder(n_lat as int, d_lat as int, ((5 * j + t) / 2) as nat),
                r_lon == slice_remainder(n_lon as int, d_lon as int, ((5 * j + t + 1) / 2) as nat),
                r_lat <= d_lat,
                r_lon <= d_lon,
                r_lat == d_lat <==> n_lat == d_lat,
                r_lon == d_lon <==> n_lon == d_lon,
            decreases 5 - t,
        {
            let ghost i: nat = 5 * j as nat + t as nat;
            proof {
                lemma_symbol_prefix_bound(lat_i, lon_i, j as nat, t as nat);
            }
            let bit: usize;
            assert((5 * j + t) % 2 == (j % 2 + t) % 2);
            proof {
                reveal_with_fuel(two_pow, 5);
            }
            assert(idx < 16);
            if (j % 2 + t) % 2 == 0 {
                proof {
                    lemma_halving_step(n_lon as int, d_lon as int, i / 2, r_lon as int);
                    assert((i + 1) / 2 == i / 2);
                    assert((i + 2) / 2 == i / 2 + 1);
                }
                if 2 * r_lon >= d_lon {
                    r_lon = 2 * r_lon - d_lon;
                    bit = 1;
                } else {
                    r_lon = 2 * r_lon;
                    bit = 0;
                }
            } else {
                proof {
                    lemma_halving_step(n_lat as int, d_lat as int, i / 2, r_lat as int);
                    assert((i + 1) / 2 == i / 2 + 1);
                    assert((i + 2) / 2 == i / 2 + 1);
                }
                if 2 * r_lat >= d_lat {
                    r_lat = 2 * r_lat - d_lat;
                    bit = 1;
                } else {
                    r_lat = 2 * r_lat;
                    bit = 0;
                }
            }
            assert(code_bit(lat_i, lon_i, i) <==> bit == 1);
            idx = 2 * idx + bit;
            t = t + 1;
            assert(idx == symbol_prefix(lat_i, lon_i, j as nat, t as nat));
        }
        proof {
            lemma_symbol_prefix_bound(lat_i, lon_i, j as nat, 5);
            reveal_with_fuel(two_pow, 6);
            assert(two_pow(5) == 32);
        }
        let symbol = BASE32.substring_char(idx, idx + 1);
        hash.append(symbol);
        proof {
            assert(symbol@ =~= seq![symbol_of(lat_i, lon_i, j as nat)]);
            assert(hash@ =~= geohash_of(lat_i, lon_i, (j + 1) as nat));
            assert((5 * j as nat + 5) == 5 * (j + 1) as nat);
        }
        j = j + 1;
    }
    hash
}

/// Cell key of the point at the default precision.
pub fn encode(lat: i64, lon: i64) -> (r: String)
    ensures
        r@ == geohash_of(lat as int, lon as int, PRECISION as nat),
{
    encode_with_precision(lat, lon, PRECISION)
}

/// Keys of one point nest: the key at a precision is a prefix of its key
/// at any greater precision.
pub proof fn lemma_geohash_prefix(lat: int, lon: int, p: nat, q: nat)
    requires
        p <= q,
    ensures
        geohash_of(lat, lon, p) == geohash_of(lat, lon, q).subrange(0, p as int),
{
    assert(geohash_of(lat, lon, p) =~= geohash_of(lat, lon, q).subrange(0, p as int));
}

/// A cardinal direction on the cell grid.
#[derive(Debug, Clone, Copy, PartialEq, Eq, Structural)]
pub enum Direction {
    North,
    South,
    East,
    West,
}

/// Neighbour table for stepping in `dir` from a key whose length has parity
/// `odd`: a last symbol found at position `i` of the table is replaced by
/// the symbol at position `i` of `BASE32`.
fn substitution_table(dir: Direction, odd: bool) -> (r: &'static str)
    ensures
        r@ == substitution_of(dir, odd),
{
    match (dir, odd) {
        (Direction::North, false) => "p0r21436x8zb9dcf5h7kjnmqesgutwvy",
        (Direction::North, true) => "bc01fg45238967deuvhjyznpkmstqrwx",
        (Direction::South, false) => "14365h7k9dcfesgujnmqp0r2twvyx8zb",
        (Direction::South, true) => "238967debc01fg45kmstqrwxuvhjyznp",
        (Direction::East, false) => "bc01fg45238967deuvhjyznpkmstqrwx",
        (Direction::East, true) => "p0r21436x8zb9dcf5h7kjnmqesgutwvy",
        (Direction::West, false) => "238967debc01fg45kmstqrwxuvhjyznp",
        (Direction::West, true) => "14365h7k9dcfesgujnmqp0r2twvyx8zb",
    }
}

/// Symbols on the edge of their parent cell towards `dir`, for a key whose
/// length has parity `odd`.
fn border_table(dir: Direction, odd: bool) -> (r: &'static str)
    ensures
        r@ == border_of(dir, odd),
{
    match (dir, odd) {
        (Direction::North, false) => "prxz",
        (Direction::North, true) => "bcfguvyz",
        (Direction::South, false) => "028b",
        (Direction::South, true) => "0145hjnp",
        (Direction::East, false) => "bcfguvyz",
        (Direction::East, true) => "prxz",
        (Direction::West, false) => "0145hjnp",
        (Direction::West, true) => "028b",
    }
}

pub open spec fn substitution_of(dir: Direction, odd: bool) -> Seq<char> {
    match (dir, odd) {
        (Direction::North, false) => "p0r21436x8zb9dcf5h7kjnmqesgutwvy"@,
        (Direction::North, true) => "bc01fg45238967deuvhjyznpkmstqrwx"@,
        (Direction::South, false) => "14365h7k9dcfesgujnmqp0r2twvyx8zb"@,
        (Direction::South, true) => "238967debc01fg45kmstqrwxuvhjyznp"@,
        (Direction::East, false) => "bc01fg45238967deuvhjyznpkmstqrwx"@,
        (Direction::East, true) => "p0r21436x8zb9dcf5h7kjnmqesgutwvy"@,
        (Direction::West, false) => "238967debc01fg45kmstqrwxuvhjyznp"@,
        (Direction::West, true) => "14365h7k9dcfesgujnmqp0r2twvyx8zb"@,
    }
}

pub open spec fn border_of(dir: Direction, odd: bool) -> Seq<char> {
    match (dir, odd) {
        (Direction::North, false) => "prxz"@,
        (Direction::North, true) => "bcfguvyz"@,
        (Direction::South, false) => "028b"@,
        (Direction::South, true) => "0145hjnp"@,
        (Direction::East, false) => "bcfguvyz"@,
        (Direction::East, true) => "prxz"@,
        (Direction::West, false) => "0145hjnp"@,
        (Direction::West, true) => "028b"@,
    }
}

/// The key of the cell next to `g` towards `dir`: the last symbol is
/// replaced through the neighbour table, after first stepping the parent key
/// when the last symbol lies on its parent's edge (the grid wraps around).
/// None for an empty key or a key with a symbol outside `BASE32`.
pub open spec fn neighbor_of(g: Seq<char>, dir: Direction) -> Option<Seq<char>>
    decreases g.len(),
{
    if g.len() == 0 {
        None
    } else {
        let last = g.last();
        let parent = g.drop_last();
        let odd = g.len() % 2 == 1;
        let base = if border_of(dir, odd).contains(last) && parent.len() > 0 {
            neighbor_of(parent, dir)
        } else {
            Some(parent)
        };
        match base {
            None => None,
            Some(b) => if substitution_of(dir, odd).contains(last) {
                Some(b.push(base32()[substitution_of(dir, odd).index_of(last)]))
            } else {
                None
            },
        }
    }
}

/// Where `c` stands in `s`, if it does.
fn position_in(s: &str, c: char) -> (r: Option<usize>)
    ensures
        r is None <==> !s@.contains(c),
        r matches Some(i) ==> i < s@.len() && s@[i as int] == c && forall|k: int|
            0 <= k < i ==> s@[k] != c,
{
    let n = s.unicode_len();
    let mut i: usize = 0;
    while i < n
        invariant
            n == s@.len(),
            i <= n,
            forall|k: int| 0 <= k < i ==> s@[k] != c,
        decreases n - i,
    {
        if s.get_char(i) == c {
            return Some(i);
        }
        i = i + 1;
    }
    None
}

pub open spec fn opt_view(o: Option<String>) -> Option<Seq<char>> {
    match o {
        Some(s) => Some(s@),
        None => None,
    }
}

/// Each neighbour table is a permutation of `BASE32`: a symbol found at
/// `pos` stands there only.
proof fn lemma_table_index(dir: Direction, odd: bool, c: char, pos: int)
    requires
        0 <= pos < substitution_of(dir, odd).len(),
        substitution_of(dir, odd)[pos] == c,
    ensures
        substitution_of(dir, odd).index_of(c) == pos,
        substitution_of(dir, odd).len() == 32,
        base32().len() == 32,
{
    reveal_strlit("0123456789bcdefghjkmnpqrstuvwxyz");
    reveal_strlit("p0r21436x8zb9dcf5h7kjnmqesgutwvy");
    reveal_strlit("bc01fg45238967deuvhjyznpkmstqrwx");
    reveal_strlit("14365h7k9dcfesgujnmqp0r2twvyx8zb");
    reveal_strlit("238967debc01fg45kmstqrwxuvhjyznp");
    let t = substitution_of(dir, odd);
    assert(t.contains(c));
    let i = t.index_of(c);
    assert(t[i] == c);
    assert(t.no_duplicates());
}

/// The key of the adjacent cell towards `direction`, wrapping around the
/// grid; None for an empty key or a key with a symbol outside `BASE32`.
pub fn neighbor(geohash: &str, direction: Direction) -> (r: Option<String>)
    ensures
        opt_view(r) == neighbor_of(geohash@, direction),
    decreases geohash@.len(),
{
    let n = geohash.unicode_len();
    if n == 0 {
        return None;
    }
    let last = geohash.get_char(n - 1);
    let parent = geohash.substring_char(0, n - 1);
    let odd = n % 2 == 1;
    assert(geohash@.last() == last);
    assert(parent@ == geohash@.drop_last());
    let on_border = position_in(border_table(direction, odd), last).is_some();
    let base: String;
    if on_border && n - 1 > 0 {
        match neighbor(parent, direction) {
            Some(b) => {
                base = b;
            },
            None => {
                return None;
            },
        }
    } else {
        base = String::from_str(parent);
    }
    let pos = match position_in(substitution_table(direction, odd), last) {
        Some(p) => p,
        None => {
            return None;
        },
    };
    proof {
        lemma_table_index(direction, odd, last, pos as int);
    }
    let symbol = BASE32.substring_char(pos, pos + 1);
    let mut out = base;
    out.append(symbol);
    assert(out@ =~= base@.push(base32()[pos as int]));
    Some(out)
}

pub open spec fn keys_of(v: Seq<String>) -> Seq<Seq<char>> {
    v.map_values(|s: String| s@)
}

pub open spec fn step_from(o: Option<Seq<char>>, dir: Direction) -> Option<Seq<char>> {
    match o {
        Some(g) => neighbor_of(g, dir),
        None => None,
    }
}

/// The nine keys looked up around `g`, in order: itself, north, south, east,
/// west, then north-east, north-west, south-east, south-west.
pub open spec fn neighborhood_candidates(g: Seq<char>) -> Seq<Option<Seq<char>>> {
    let north = neighbor_of(g, Direction::North);
    let south = neighbor_of(g, Direction::South);
    seq![
        Some(g),
        north,
        south,
        neighbor_of(g, Direction::East),
        neighbor_of(g, Direction::West),
        step_from(north, Direction::East),
        step_from(north, Direction::West),
        step_from(south, Direction::East),
        step_from(south, Direction::West),
    ]
}

/// The keys present among the first `k` candidates, each kept at its first occurrence.
pub open spec fn distinct_present(c: Seq<Option<Seq<char>>>, k: nat) -> Seq<Seq<char>>
    decreases k,
{
    if k == 0 {
        seq![]
    } else {
        let prev = distinct_present(c, (k - 1) as nat);
        match c[k - 1] {
            Some(x) => if prev.contains(x) {
                prev
            } else {
                prev.push(x)
            },
            None => prev,
        }
    }
}

/// The neighbourhood of a key: the key itself and each neighbour that exists, once.
pub open spec fn neighborhood_of(g: Seq<char>) -> Seq<Seq<char>> {
    distinct_present(neighborhood_candidates(g), 9)
}

proof fn lemma_distinct_present(c: Seq<Option<Seq<char>>>, k: nat)
    requires
        k <= c.len(),
    ensures
        distinct_present(c, k).no_duplicates(),
        distinct_present(c, k).len() <= k,
        forall|x: Seq<char>|
            distinct_present(c, k).contains(x) <==> exists|i: int| 0 <= i < k && c[i] == Some(x),
        k > 0 && c[0] is Some ==> distinct_present(c, k)[0] == c[0]->Some_0,
    decreases k,
{
    if k > 0 {
        let prev = distinct_present(c, (k - 1) as nat);
        let d = distinct_present(c, k);
        lemma_distinct_present(c, (k - 1) as nat);
        assert(d == prev || (c[k - 1] is Some && !prev.contains(c[k - 1]->Some_0) && d == prev.push(
            c[k - 1]->Some_0,
        )));
        assert forall|x: Seq<char>| d.contains(x) implies exists|i: int|
            0 <= i < k && c[i] == Some(x) by {
            let j = choose|j: int| 0 <= j < d.len() && d[j] == x;
            if j < prev.len() {
                assert(prev[j] == x);
                assert(prev.contains(x));
            } else {
                assert(c[k - 1] == Some(x));
            }
        }
        assert forall|x: Seq<char>| (exists|i: int| 0 <= i < k && c[i] == Some(x)) implies d.contains(
            x,
        ) by {
            let i = choose|i: int| 0 <= i < k && c[i] == Some(x);
            if i < k - 1 {
                assert(prev.contains(x));
                let j = choose|j: int| 0 <= j < prev.len() && prev[j] == x;
                assert(d[j] == x);
            } else if prev.contains(x) {
                let j = choose|j: int| 0 <= j < prev.len() && prev[j] == x;
                assert(d[j] == x);
            } else {
                assert(d[prev.len() as int] == x);
            }
        }
        if c[0] is Some {
            if k == 1 {
                assert(prev.len() == 0);
                assert(d[0] == c[0]->Some_0);
            } else {
                assert(prev.contains(c[0]->Some_0));
                assert(prev.len() > 0);
                assert(d[0] == prev[0]);
            }
        }
    }
}

/// The law of neighbourhoods: between one and nine keys, the key itself
/// first, no key twice, and every key one of the nine looked up.
pub proof fn lemma_neighborhood(g: Seq<char>)
    ensures
        1 <= neighborhood_of(g).len() <= 9,
        neighborhood_of(g)[0] == g,
        neighborhood_of(g).no_duplicates(),
        forall|x: Seq<char>|
            neighborhood_of(g).contains(x) <==> neighborhood_candidates(g).contains(Some(x)),
{
    let c = neighborhood_candidates(g);
    lemma_distinct_present(c, 9);
    assert(neighborhood_of(g).contains(g));
    assert forall|x: Seq<char>|
        neighborhood_of(g).contains(x) <==> c.contains(Some(x)) by {
        if c.contains(Some(x)) {
            let i = choose|i: int| 0 <= i < c.len() && c[i] == Some(x);
            assert(exists|i: int| 0 <= i < 9 && c[i] == Some(x));
        }
    }
}

/// Whether `v` holds a string equal to `s`.
fn holds(v: &Vec<String>, s: &String) -> (r: bool)
    ensures
        r == keys_of(v@).contains(s@),
{
    let mut i: usize = 0;
    while i < v.len()
        invariant
            i <= v@.len(),
            forall|k: int| 0 <= k < i ==> v@[k]@ != s@,
        decreases v@.len() - i,
    {
        if v[i] == *s {
            assert(keys_of(v@)[i as int] == s@);
            return true;
        }
        i = i + 1;
    }
    proof {
        if keys_of(v@).contains(s@) {
            let k = choose|k: int| 0 <= k < keys_of(v@).len() && keys_of(v@)[k] == s@;
            assert(v@[k]@ == s@);
        }
    }
    false
}

fn add_candidate(v: &mut Vec<String>, c: Option<String>)
    ensures
        keys_of(final(v)@) == match opt_view(c) {
            Some(x) => if keys_of(old(v)@).contains(x) {
                keys_of(old(v)@)
            } else {
                keys_of(old(v)@).push(x)
            },
            None => keys_of(old(v)@),
        },
{
    if let Some(s) = c {
        if !holds(v, &s) {
            v.push(s);
            assert(keys_of(v@) =~= keys_of(old(v)@).push(s@));
        }
    }
}

/// The keys of the cell `geohash` and of the up to eight cells around it,
/// each once; fewer than nine only where some of these keys coincide or the
/// key holds a symbol outside `BASE32`.
pub fn get_neighbors(geohash: &str) -> (r: Vec<String>)
    ensures
        keys_of(r@) == neighborhood_of(geohash@),
        1 <= r@.len() <= 9,
        r@[0]@ == geohash@,
{
    let ghost g = geohash@;
    let ghost c = neighborhood_candidates(g);
    let north = neighbor(geohash, Direction::North);
    let south = neighbor(geohash, Direction::South);
    let east = neighbor(geohash, Direction::East);
    let west = neighbor(geohash, Direction::West);
    let north_east = match &north {
        Some(n) => neighbor(n.as_str(), Direction::East),
        None => None,
    };
    let north_west = match &north {
        Some(n) => neighbor(n.as_str(), Direction::West),
        None => None,
    };
    let south_east = match &south {
        Some(s) => neighbor(s.as_str(), Direction::East),
        None => None,
    };
    let south_west = match &south {
        Some(s) => neighbor(s.as_str(), Direction::West),
        None => None,
    };
    let mut neighbors: Vec<String> = Vec::new();
    assert(keys_of(neighbors@) =~= distinct_present(c, 0));
    add_candidate(&mut neighbors, Some(String::from_str(geohash)));
    assert(keys_of(neighbors@) == distinct_present(c, 1));
    add_candidate(&mut neighbors, north);
    assert(keys_of(neighbors@) == distinct_present(c, 2));
    add_candidate(&mut neighbors, south);
    assert(keys_of(neighbors@) == distinct_present(c, 3));
    add_candidate(&mut neighbors, east);
    assert(keys_of(neighbors@) == distinct_present(c, 4));
    add_candidate(&mut neighbors, west);
    assert(keys_of(neighbors@) == distinct_present(c, 5));
    add_candidate(&mut neighbors, north_east);
    assert(keys_of(neighbors@) == distinct_present(c, 6));
    add_candidate(&mut neighbors, north_west);
    assert(keys_of(neighbors@) == distinct_present(c, 7));
    add_candidate(&mut neighbors, south_east);
    assert(keys_of(neighbors@) == distinct_present(c, 8));
    add_candidate(&mut neighbors, south_west);
    assert(keys_of(neighbors@) == distinct_present(c, 9));
    proof {
        lemma_neighborhood(g);
        assert(keys_of(neighbors@).len() == neighbors@.len());
        assert(keys_of(neighbors@)[0] == neighbors@[0]@);
    }
    neighbors
}

} // verus!
