//! Sizes and anchors as views and styles write them: `120px`, `50pw` (per
//! cent, or all, of the parent's width), `25ph`, and anchors `s`, `c`/`m`, `e`.
use vstd::prelude::*;
use crate::text::{utf8_len, byte_cut, slice_of};
use crate::numbers::{parse_unsigned, parse_uint};

verus! {

/// The text ends in two bytes of whole characters (the unit).
pub open spec fn has_unit(def: Seq<char>) -> bool {
    exists|k: int| 0 <= k <= def.len() && utf8_len(def.skip(k)) == 2
}

/// Where the unit starts.
pub open spec fn unit_start(def: Seq<char>) -> int {
    choose|k: int| 0 <= k <= def.len() && utf8_len(def.skip(k)) == 2
}

/// The unit: the characters of the last two bytes.
pub open spec fn unit_of(def: Seq<char>) -> Seq<char> {
    def.skip(unit_start(def))
}

/// The number in front of the unit.
pub open spec fn number_of(def: Seq<char>) -> Seq<char> {
    def.take(unit_start(def))
}

/// `pw`.
pub open spec fn pw() -> Seq<char> {
    seq!['p', 'w']
}

/// `ph`.
pub open spec fn ph() -> Seq<char> {
    seq!['p', 'h']
}

/// A size of the window tree can be read: a unit and a number below 65536.
pub open spec fn scene_size_ok(def: Seq<char>) -> bool {
    has_unit(def) && parse_unsigned(number_of(def), 10, 0xffff) is Some
}

/// A size of the window tree: the parent's whole width for `pw`, its whole
/// height for `ph`, else the number.
pub open spec fn scene_size(def: Seq<char>, mw: u16, mh: u16) -> u16 {
    if unit_of(def) == pw() {
        mw
    } else if unit_of(def) == ph() {
        mh
    } else {
        parse_unsigned(number_of(def), 10, 0xffff)->0 as u16
    }
}

/// A size of a layer can be read: a unit, a number below 2^32, and a per-cent
/// product that fits in 32 bits.
pub open spec fn visual_size_ok(def: Seq<char>, mw: u16, mh: u16) -> bool {
    &&& has_unit(def)
    &&& parse_unsigned(number_of(def), 10, 0xffff_ffff) is Some
    &&& unit_of(def) == pw() ==> parse_unsigned(number_of(def), 10, 0xffff_ffff)->0 * mw
        <= 0xffff_ffff
    &&& unit_of(def) == ph() ==> parse_unsigned(number_of(def), 10, 0xffff_ffff)->0 * mh
        <= 0xffff_ffff
}

/// A size of a layer: per cent of the parent's width for `pw`, of its height
/// for `ph`, else the number, each cut to 16 bits.
pub open spec fn visual_size(def: Seq<char>, mw: u16, mh: u16) -> u16 {
    let s = parse_unsigned(number_of(def), 10, 0xffff_ffff)->0;
    if unit_of(def) == pw() {
        ((s * mw / 100) % 0x10000) as u16
    } else if unit_of(def) == ph() {
        ((s * mh / 100) % 0x10000) as u16
    } else {
        (s % 0x10000) as u16
    }
}

/// `m` read as a signed 16-bit number (`m as i16`).
pub open spec fn wrap16(m: u16) -> i16 {
    if m < 0x8000 {
        m as i16
    } else {
        (m - 0x10000) as i16
    }
}

/// Half of `m as i16`, rounded toward zero.
pub open spec fn half16(m: u16) -> i16 {
    if m < 0x8000 {
        (m / 2) as i16
    } else {
        (-((0x10000 - m) / 2)) as i16
    }
}

/// An anchor of the window tree: `s` the start, `c` the middle, anything
/// else the end of a span of `max`.
pub open spec fn scene_anchor(def: Seq<char>, max: u16) -> i16 {
    if def == seq!['s'] {
        0
    } else if def == seq!['c'] {
        half16(max)
    } else {
        wrap16(max)
    }
}

/// An anchor of a layer: `s` the start, `m` or `c` the middle, anything
/// else the end of a span of `max`.
pub open spec fn visual_anchor(def: Seq<char>, max: u16) -> i16 {
    if def == seq!['s'] {
        0
    } else if def == seq!['m'] || def == seq!['c'] {
        half16(max)
    } else {
        wrap16(max)
    }
}

/// Splits `def` into number and unit, if its last two bytes are whole characters.
pub fn split_unit(def: &Vec<char>) -> (r: Option<(Vec<char>, Vec<char>)>)
    ensures
        match r {
            Some((num, unit)) => has_unit(def@) && num@ == number_of(def@) && unit@ == unit_of(
                def@,
            ),
            None => !has_unit(def@),
        },
{
    match byte_cut(def, 2) {
        Some(k) => {
            proof {
                let kc = unit_start(def@);
                crate::text::lemma_cut_unique(def@, kc, k as int);
            }
            let num = slice_of(def, 0, k);
            let unit = slice_of(def, k, def.len());
            assert(num@ =~= number_of(def@));
            assert(unit@ =~= unit_of(def@));
            Some((num, unit))
        },
        None => None,
    }
}

/// Whether `u` is the unit `p` followed by `second`.
fn is_unit(u: &Vec<char>, second: char) -> (r: bool)
    ensures
        r == (u@ == seq!['p', second]),
{
    if u.len() == 2 && u[0] == 'p' && u[1] == second {
        assert(u@ =~= seq!['p', second]);
        true
    } else {
        false
    }
}

/// `m as i16`.
pub fn wrap(m: u16) -> (r: i16)
    ensures
        r == wrap16(m),
{
    if m < 0x8000 {
        m as i16
    } else {
        (m as i32 - 0x10000) as i16
    }
}

/// `(m as i16) / 2`.
pub fn half(m: u16) -> (r: i16)
    ensures
        r == half16(m),
{
    if m < 0x8000 {
        (m / 2) as i16
    } else {
        (-(((0x10000 - m as i32) / 2))) as i16
    }
}

/// Whether a size of the window tree can be read.
pub fn scene_size_valid(def: &Vec<char>) -> (r: bool)
    ensures
        r == scene_size_ok(def@),
{
    match split_unit(def) {
        Some((num, _u)) => parse_uint(&num, 10, 0xffff).is_some(),
        None => false,
    }
}

/// Reads a size of the window tree.
pub fn scene_calc(def: &Vec<char>, mw: u16, mh: u16) -> (r: u16)
    requires
        scene_size_ok(def@),
    ensures
        r == scene_size(def@, mw, mh),
{
    match split_unit(def) {
        Some((num, unit)) => {
            let s = match parse_uint(&num, 10, 0xffff) {
                Some(s) => s,
                None => 0,
            };
            if is_unit(&unit, 'w') {
                mw
            } else if is_unit(&unit, 'h') {
                mh
            } else {
                s as u16
            }
        },
        None => 0,
    }
}

/// Whether a size of a layer can be read.
pub fn visual_size_valid(def: &Vec<char>, mw: u16, mh: u16) -> (r: bool)
    ensures
        r == visual_size_ok(def@, mw, mh),
{
    match split_unit(def) {
        Some((num, unit)) => match parse_uint(&num, 10, 0xffff_ffff) {
            Some(s) => {
                assert(s * (mw as u64) <= 0xffff_ffff * 0xffff) by (nonlinear_arith)
                    requires
                        s <= 0xffff_ffff,
                        mw <= 0xffff,
                ;
                assert(s * (mh as u64) <= 0xffff_ffff * 0xffff) by (nonlinear_arith)
                    requires
                        s <= 0xffff_ffff,
                        mh <= 0xffff,
                ;
                if is_unit(&unit, 'w') {
                    s * (mw as u64) <= 0xffff_ffff
                } else if is_unit(&unit, 'h') {
                    s * (mh as u64) <= 0xffff_ffff
                } else {
                    true
                }
            },
            None => false,
        },
        None => false,
    }
}

/// Reads a size of a layer.
pub fn visual_calc(def: &Vec<char>, mw: u16, mh: u16) -> (r: u16)
    requires
        visual_size_ok(def@, mw, mh),
    ensures
        r == visual_size(def@, mw, mh),
{
    match split_unit(def) {
        Some((num, unit)) => {
            let s = match parse_uint(&num, 10, 0xffff_ffff) {
                Some(s) => s,
                None => 0,
            };
            if is_unit(&unit, 'w') {
                ((s * (mw as u64) / 100) % 0x10000) as u16
            } else if is_unit(&unit, 'h') {
                ((s * (mh as u64) / 100) % 0x10000) as u16
            } else {
                (s % 0x10000) as u16
            }
        },
        None => 0,
    }
}

/// Reads an anchor of the window tree.
pub fn scene_anchor_of(def: &Vec<char>, max: u16) -> (r: i16)
    ensures
        r == scene_anchor(def@, max),
{
    if def.len() == 1 && def[0] == 's' {
        assert(def@ =~= seq!['s']);
        0
    } else if def.len() == 1 && def[0] == 'c' {
        assert(def@ =~= seq!['c']);
        half(max)
    } else {
        wrap(max)
    }
}

/// Reads an anchor of a layer.
pub fn visual_anchor_of(def: &Vec<char>, max: u16) -> (r: i16)
    ensures
        r == visual_anchor(def@, max),
{
    if def.len() == 1 && def[0] == 's' {
        assert(def@ =~= seq!['s']);
        0
    } else if def.len() == 1 && (def[0] == 'm' || def[0] == 'c') {
        assert(def@ =~= seq![def[0]]);
        half(max)
    } else {
        wrap(max)
    }
}

} // verus!
