//! Tile identifiers and the integer arithmetic of the Web Mercator tile grid.

use vstd::prelude::*;
use vstd::string::*;
use crate::text::{
    decimal, push_decimal, is_digit, lemma_decimal_digits, law_decimal_injective, decimal_value, is_numeral,
    lacks, law_decimal_reads_back, lemma_split_at, lemma_drop_suffix, lemma_drop_prefix,
};
use vstd::arithmetic::power2::{pow2, lemma2_to64, lemma_pow2_pos, lemma_pow2_strictly_increases};
use vstd::bits::lemma_u64_shl_is_mul;
use vstd::arithmetic::div_mod::{lemma_fundamental_div_mod, lemma_fundamental_div_mod_converse};

verus! {

/// Number of tiles along one axis of the grid at `zoom`.
pub open spec fn tiles_per_axis(zoom: u8) -> int {
    pow2(zoom as nat) as int
}

/// Unique identifier for a map tile.
#[derive(Clone, Copy, Debug, Hash, PartialEq, Eq, Structural)]
pub struct TileId {
    pub x: u32,
    pub y: u32,
    pub z: u8,
}

impl TileId {
    pub fn new(x: u32, y: u32, z: u8) -> (r: Self)
        ensures
            r == (TileId { x, y, z }),
    {
        TileId { x, y, z }
    }

    /// Build OSM tile URL
    pub fn to_osm_url(&self) -> (r: String)
        ensures
            r@ == osm_url(*self),
    {
        let mut url = String::new();
        url.append("https://tile.openstreetmap.org/");
        push_decimal(&mut url, self.z as u64);
        url.append("/");
        push_decimal(&mut url, self.x as u64);
        url.append("/");
        push_decimal(&mut url, self.y as u64);
        url.append(".png");
        url
    }
}

/// The OpenStreetMap URL of a tile: `https://tile.openstreetmap.org/{z}/{x}/{y}.png`.
pub open spec fn osm_url(t: TileId) -> Seq<char> {
    "https://tile.openstreetmap.org/"@ + decimal(t.z as nat) + "/"@ + decimal(t.x as nat) + "/"@
        + decimal(t.y as nat) + ".png"@
}

/// Text without a slash, followed by a slash, splits there only one way.
proof fn lemma_split_at_slash(a: Seq<char>, b: Seq<char>, c: Seq<char>, d: Seq<char>)
    requires
        a + seq!['/'] + b == c + seq!['/'] + d,
        forall|i: int| 0 <= i < a.len() ==> a[i] != '/',
        forall|i: int| 0 <= i < c.len() ==> c[i] != '/',
    ensures
        a == c,
        b == d,
{
    let u = a + seq!['/'] + b;
    let v = c + seq!['/'] + d;
    if a.len() < c.len() {
        assert(u[a.len() as int] == '/');
        assert(v[a.len() as int] == c[a.len() as int]);
    } else if c.len() < a.len() {
        assert(v[c.len() as int] == '/');
        assert(u[c.len() as int] == a[c.len() as int]);
    }
    assert(a =~= u.take(a.len() as int));
    assert(c =~= v.take(c.len() as int));
    assert(b =~= u.skip((a.len() + 1) as int));
    assert(d =~= v.skip((c.len() + 1) as int));
}

/// A decimal rendering holds no slash.
proof fn lemma_decimal_no_slash(n: nat)
    ensures
        forall|i: int| 0 <= i < decimal(n).len() ==> decimal(n)[i] != '/',
{
    lemma_decimal_digits(n);
    assert forall|i: int| 0 <= i < decimal(n).len() implies decimal(n)[i] != '/' by {
        assert(is_digit(decimal(n)[i]));
    }
}

/// Different tiles have different OSM URLs.
pub proof fn law_osm_url_distinct(a: TileId, b: TileId)
    requires
        osm_url(a) == osm_url(b),
    ensures
        a == b,
{
    reveal_strlit("/");
    let p = "https://tile.openstreetmap.org/"@;
    let e = ".png"@;
    let s = "/"@;
    assert(s =~= seq!['/']);
    let ta = decimal(a.z as nat) + seq!['/'] + (decimal(a.x as nat) + seq!['/'] + decimal(a.y as nat));
    let tb = decimal(b.z as nat) + seq!['/'] + (decimal(b.x as nat) + seq!['/'] + decimal(b.y as nat));
    assert(osm_url(a) =~= p + ta + e);
    assert(osm_url(b) =~= p + tb + e);
    assert(ta.len() == tb.len());
    assert(ta =~= osm_url(a).subrange(p.len() as int, (p.len() + ta.len()) as int));
    assert(tb =~= osm_url(b).subrange(p.len() as int, (p.len() + tb.len()) as int));
    lemma_decimal_no_slash(a.z as nat);
    lemma_decimal_no_slash(b.z as nat);
    lemma_decimal_no_slash(a.x as nat);
    lemma_decimal_no_slash(b.x as nat);
    lemma_split_at_slash(
        decimal(a.z as nat),
        decimal(a.x as nat) + seq!['/'] + decimal(a.y as nat),
        decimal(b.z as nat),
        decimal(b.x as nat) + seq!['/'] + decimal(b.y as nat),
    );
    lemma_split_at_slash(decimal(a.x as nat), decimal(a.y as nat), decimal(b.x as nat), decimal(b.y as nat));
    law_decimal_injective(a.z as nat, b.z as nat);
    law_decimal_injective(a.x as nat, b.x as nat);
    law_decimal_injective(a.y as nat, b.y as nat);
}

/// The URL of a tile is the host, then three decimal numerals separated by
/// slashes, then `.png`.
pub proof fn law_osm_url_shape(t: TileId)
    ensures
        exists|sz: Seq<char>, sx: Seq<char>, sy: Seq<char>|
            #![trigger is_numeral(sz), is_numeral(sx), is_numeral(sy)]
            is_numeral(sz) && is_numeral(sx) && is_numeral(sy)
                && osm_url(t) == "https://tile.openstreetmap.org/"@ + sz + "/"@ + sx + "/"@ + sy + ".png"@,
{
    law_decimal_reads_back(t.z as nat);
    law_decimal_reads_back(t.x as nat);
    law_decimal_reads_back(t.y as nat);
}

/// Read at its slashes, the URL of a tile gives the tile back: after the
/// host come the zoom, the column and the row, in that order, each in
/// decimal, and then `.png`.
pub proof fn law_osm_url_reads_back(t: TileId, sz: Seq<char>, sx: Seq<char>, sy: Seq<char>)
    requires
        osm_url(t) == "https://tile.openstreetmap.org/"@ + sz + "/"@ + sx + "/"@ + sy + ".png"@,
        lacks(sz, '/'),
        lacks(sx, '/'),
    ensures
        decimal_value(sz) == t.z,
        decimal_value(sx) == t.x,
        decimal_value(sy) == t.y,
{
    reveal_strlit("/");
    let p = "https://tile.openstreetmap.org/"@;
    let e = ".png"@;
    assert("/"@ =~= seq!['/']);
    let dz = decimal(t.z as nat);
    let dx = decimal(t.x as nat);
    let dy = decimal(t.y as nat);
    let mine = dz + seq!['/'] + (dx + seq!['/'] + dy);
    let theirs = sz + seq!['/'] + (sx + seq!['/'] + sy);
    assert(osm_url(t) =~= p + mine + e);
    assert(osm_url(t) =~= p + theirs + e);
    assert(p + mine + e =~= p + (mine + e));
    assert(p + theirs + e =~= p + (theirs + e));
    lemma_drop_prefix(p, mine + e, theirs + e);
    lemma_drop_suffix(mine, theirs, e);
    lemma_decimal_no_slash(t.z as nat);
    lemma_decimal_no_slash(t.x as nat);
    lemma_split_at(dz, dx + seq!['/'] + dy, sz, sx + seq!['/'] + sy, '/');
    lemma_split_at(dx, dy, sx, sy, '/');
    law_decimal_reads_back(t.z as nat);
    law_decimal_reads_back(t.x as nat);
    law_decimal_reads_back(t.y as nat);
}

/// `1 << zoom` as an unsigned 64-bit number, for `zoom < 32`.
fn axis_tiles(zoom: u8) -> (r: u64)
    requires
        zoom < 32,
    ensures
        r == tiles_per_axis(zoom),
        0 < r <= 0x8000_0000,
{
    proof {
        lemma_pow2_pos(zoom as nat);
        if zoom < 31 {
            lemma_pow2_strictly_increases(zoom as nat, 31);
        }
        lemma2_to64();
        lemma_u64_shl_is_mul(1, zoom as u64);
    }
    1u64 << (zoom as u64)
}

/// Whether the integer arithmetic of `wrap_tile_x` stays in range:
/// the shift needs `zoom < 32`, and at `zoom == 31` the intermediate sum only
/// fits for non-negative `x` or for `i32::MIN` itself.
pub open spec fn wrap_tile_x_defined(x: i32, zoom: u8) -> bool {
    zoom < 31 || (zoom == 31 && (x >= 0 || x == i32::MIN))
}

/// Wrap X coordinate for infinite horizontal scrolling: the result is `x`
/// taken modulo the number of tiles per axis, always in `[0, 2^zoom)`.
pub fn wrap_tile_x(x: i32, zoom: u8) -> (r: u32)
    requires
        wrap_tile_x_defined(x, zoom),
    ensures
        r as int == (x as int) % tiles_per_axis(zoom),
        0 <= r < tiles_per_axis(zoom),
{
    let m = axis_tiles(zoom);
    if x >= 0 {
        let r = (x as u64) % m;
        r as u32
    } else {
        let n: u64 = (-(x as i64)) as u64;
        let a = n % m;
        proof {
            lemma_fundamental_div_mod(n as int, m as int);
        }
        if a == 0 {
            proof {
                let q = (n as int) / (m as int);
                assert(x as int == (-q) * (m as int) + 0) by (nonlinear_arith)
                    requires
                        n == -(x as int),
                        n as int == (m as int) * q + 0,
                ;
                lemma_fundamental_div_mod_converse(x as int, m as int, -q, 0);
            }
            0
        } else {
            proof {
                let q = (n as int) / (m as int);
                assert(x as int == (-q - 1) * (m as int) + (m - a)) by (nonlinear_arith)
                    requires
                        n == -(x as int),
                        n as int == (m as int) * q + a,
                ;
                lemma_fundamental_div_mod_converse(x as int, m as int, -q - 1, m - a);
            }
            (m - a) as u32
        }
    }
}

/// Wrapping leaves a column that is already on the map as it is, and gives
/// columns a whole number of worlds apart the same column.
pub proof fn law_wrap_tile_x(x: int, worlds: int, zoom: u8)
    requires
        zoom < 32,
    ensures
        0 <= x < tiles_per_axis(zoom) ==> x % tiles_per_axis(zoom) == x,
        (x + worlds * tiles_per_axis(zoom)) % tiles_per_axis(zoom) == x % tiles_per_axis(zoom),
{
    let m = tiles_per_axis(zoom);
    lemma_pow2_pos(zoom as nat);
    if 0 <= x < m {
        lemma_fundamental_div_mod_converse(x, m, 0, x);
    }
    lemma_fundamental_div_mod(x, m);
    let q = x / m;
    let r = x % m;
    assert(x + worlds * m == (q + worlds) * m + r) by (nonlinear_arith)
        requires
            x == m * q + r,
    ;
    lemma_fundamental_div_mod_converse(x + worlds * m, m, q + worlds, r);
}

/// Check if Y coordinate is valid (no wrapping for latitude). At `zoom == 31`
/// the tile count overflows a signed 32-bit number and no row is valid.
pub fn is_valid_tile_y(y: i32, zoom: u8) -> (r: bool)
    requires
        zoom < 32,
    ensures
        r == (zoom < 31 && 0 <= y < tiles_per_axis(zoom)),
{
    if zoom >= 31 {
        false
    } else {
        let m = axis_tiles(zoom);
        y >= 0 && (y as u64) < m
    }
}

} // verus!
