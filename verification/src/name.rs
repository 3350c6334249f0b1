//! The output namer: derives the output file path from the
//! user-supplied base name, the mesh's tally identifier and the
//! chosen format. Pure string construction, no file system access.
//!
//! The base name is read with '/' as the path separator, the way the
//! standard path type reads it: trailing separators are ignored, the
//! component after the last remaining '/' is the file name, and that
//! name loses its extension (the part after its last '.', when that
//! dot is not the leading character). A base that names no file — it
//! is empty, all separators, or ends in the '.' or '..' component —
//! keeps its directory part whole and falls back to the fixed stem
//! "fmesh".

use vstd::prelude::*;

use crate::model::{ConvertOptions, Geometry, MeshInfo, VtkFormat};

verus! {

/// The character for a single decimal digit.
pub open spec fn digit_char(d: int) -> char {
    if d == 0 {
        '0'
    } else if d == 1 {
        '1'
    } else if d == 2 {
        '2'
    } else if d == 3 {
        '3'
    } else if d == 4 {
        '4'
    } else if d == 5 {
        '5'
    } else if d == 6 {
        '6'
    } else if d == 7 {
        '7'
    } else if d == 8 {
        '8'
    } else {
        '9'
    }
}

/// The decimal rendering of a number, most significant digit first,
/// without leading zeros (a lone zero for zero itself).
pub open spec fn decimal_of(n: nat) -> Seq<char>
    decreases n,
{
    if n < 10 {
        seq![digit_char(n as int)]
    } else {
        decimal_of(n / 10).push(digit_char((n % 10) as int))
    }
}

/// Length of a base name once its trailing '/' separators are
/// dropped, as the standard path reading ignores them.
pub open spec fn trimmed_len(s: Seq<char>) -> int
    decreases s.len(),
{
    if s.len() == 0 {
        0
    } else if s.last() == '/' {
        trimmed_len(s.drop_last())
    } else {
        s.len() as int
    }
}

/// The two relative components, '.' and '..', that name no file of
/// their own.
pub open spec fn is_dot_name(name: Seq<char>) -> bool {
    (name.len() == 1 && name[0] == '.') || (name.len() == 2 && name[0] == '.' && name[1] == '.')
}

/// Length of the directory part of a base name: everything up to and
/// including the last '/', or zero when there is none.
pub open spec fn dir_len(s: Seq<char>) -> int
    decreases s.len(),
{
    if s.len() == 0 {
        0
    } else if s.last() == '/' {
        s.len() as int
    } else {
        dir_len(s.drop_last())
    }
}

/// Position of the last '.' of a file name, or -1 when there is none.
pub open spec fn last_dot_pos(name: Seq<char>) -> int
    decreases name.len(),
{
    if name.len() == 0 {
        -1
    } else if name.last() == '.' {
        name.len() - 1
    } else {
        last_dot_pos(name.drop_last())
    }
}

/// Length of a file name's stem: the extension after the last '.' is
/// dropped, unless that dot leads the name (a hidden file) or there
/// is none, in which case the whole name is the stem.
pub open spec fn stem_len(name: Seq<char>) -> int {
    let p = last_dot_pos(name);
    if p > 0 {
        p
    } else {
        name.len() as int
    }
}

/// The file extension chosen from format and geometry: the default
/// format writes one structured-grid extension for rectangular
/// meshes and one unstructured-grid extension for cylindrical
/// meshes; every legacy format writes the single legacy extension,
/// whatever the geometry.
pub open spec fn extension_spec(format: VtkFormat, geometry: Geometry) -> Seq<char> {
    match format {
        VtkFormat::Xml => match geometry {
            Geometry::Rectangular => "vtr"@,
            Geometry::Cylindrical => "vtu"@,
        },
        VtkFormat::LegacyAscii => "vtk"@,
        VtkFormat::LegacyBinary => "vtk"@,
    }
}

/// The full output path: the base name's directory part, then the
/// file name's stem with an underscore, the tally identifier in
/// decimal, a dot and the chosen extension appended. Trailing '/'
/// separators do not count towards the file name; a base without a
/// file name of its own (empty, all separators, or ending in '.' or
/// '..') is kept whole as the directory and the stem falls back to
/// "fmesh".
pub open spec fn output_name_spec(
    base: Seq<char>,
    id: u32,
    format: VtkFormat,
    geometry: Geometry,
) -> Seq<char> {
    let trimmed = base.take(trimmed_len(base));
    let d = dir_len(trimmed);
    let name = trimmed.subrange(d, trimmed.len() as int);
    let tail = "_"@ + decimal_of(id as nat) + "."@ + extension_spec(format, geometry);
    if name.len() == 0 {
        base + "fmesh"@ + tail
    } else if is_dot_name(name) {
        trimmed + "/"@ + "fmesh"@ + tail
    } else {
        trimmed.take(d) + name.take(stem_len(name)) + tail
    }
}

proof fn lemma_dir_len_bounds(s: Seq<char>)
    ensures
        0 <= dir_len(s) <= s.len(),
    decreases s.len(),
{
    if s.len() > 0 && s.last() != '/' {
        lemma_dir_len_bounds(s.drop_last());
    }
}

proof fn lemma_last_dot_bounds(name: Seq<char>)
    ensures
        -1 <= last_dot_pos(name) < name.len(),
    decreases name.len(),
{
    if name.len() > 0 && name.last() != '.' {
        lemma_last_dot_bounds(name.drop_last());
    }
}

/// The one-character string for a decimal digit.
fn digit_str(d: u32) -> (r: &'static str)
    requires
        d < 10,
    ensures
        r@ == seq![digit_char(d as int)],
{
    if d == 0 {
        proof {
            reveal_strlit("0");
            assert("0"@ =~= seq![digit_char(0int)]);
        }
        "0"
    } else if d == 1 {
        proof {
            reveal_strlit("1");
            assert("1"@ =~= seq![digit_char(1int)]);
        }
        "1"
    } else if d == 2 {
        proof {
            reveal_strlit("2");
            assert("2"@ =~= seq![digit_char(2int)]);
        }
        "2"
    } else if d == 3 {
        proof {
            reveal_strlit("3");
            assert("3"@ =~= seq![digit_char(3int)]);
        }
        "3"
    } else if d == 4 {
        proof {
            reveal_strlit("4");
            assert("4"@ =~= seq![digit_char(4int)]);
        }
        "4"
    } else if d == 5 {
        proof {
            reveal_strlit("5");
            assert("5"@ =~= seq![digit_char(5int)]);
        }
        "5"
    } else if d == 6 {
        proof {
            reveal_strlit("6");
            assert("6"@ =~= seq![digit_char(6int)]);
        }
        "6"
    } else if d == 7 {
        proof {
            reveal_strlit("7");
            assert("7"@ =~= seq![digit_char(7int)]);
        }
        "7"
    } else if d == 8 {
        proof {
            reveal_strlit("8");
            assert("8"@ =~= seq![digit_char(8int)]);
        }
        "8"
    } else {
        proof {
            reveal_strlit("9");
            assert("9"@ =~= seq![digit_char(9int)]);
        }
        "9"
    }
}

/// Renders a number in decimal, most significant digit first.
pub fn u32_decimal(n: u32) -> (r: String)
    ensures
        r@ == decimal_of(n as nat),
    decreases n,
{
    let d = n % 10;
    let ds = digit_str(d);
    if n < 10 {
        ds.to_owned()
    } else {
        proof {
            assert(n / 10 < n) by (nonlinear_arith)
                requires
                    n >= 10,
            ;
        }
        let front = u32_decimal(n / 10);
        let r = front.concat(ds);
        proof {
            assert(r@ =~= decimal_of((n as nat) / 10).push(digit_char((n % 10) as int)));
        }
        r
    }
}

/// Finds the length of the base name without its trailing '/'
/// separators: the scan runs from the end over the separators.
fn find_trimmed_len(s: &str) -> (r: usize)
    ensures
        r as int == trimmed_len(s@),
        0 <= r <= s@.len(),
{
    let n = s.unicode_len();
    proof {
        assert(s@.take(n as int) =~= s@);
    }
    let mut i: usize = n;
    while i > 0
        invariant
            0 <= i <= n,
            n == s@.len(),
            trimmed_len(s@) == trimmed_len(s@.take(i as int)),
        decreases i,
    {
        if s.get_char(i - 1) != '/' {
            proof {
                assert(s@.take(i as int).last() != '/');
            }
            return i;
        }
        proof {
            assert(s@.take(i as int).drop_last() =~= s@.take(i as int - 1));
            assert(s@.take(i as int).last() == '/');
        }
        i = i - 1;
    }
    proof {
        assert(s@.take(0) =~= Seq::<char>::empty());
    }
    0
}

/// Tells whether a file name is the '.' or '..' component.
fn name_is_dot(name: &str) -> (r: bool)
    ensures
        r == is_dot_name(name@),
{
    let n = name.unicode_len();
    if n == 1 {
        name.get_char(0) == '.'
    } else if n == 2 {
        name.get_char(0) == '.' && name.get_char(1) == '.'
    } else {
        false
    }
}

/// Finds the length of the directory part: the scan runs from the
/// end of the base name to the last '/'.
fn find_dir_len(s: &str) -> (r: usize)
    ensures
        r as int == dir_len(s@),
        0 <= r <= s@.len(),
{
    let n = s.unicode_len();
    proof {
        assert(s@.take(n as int) =~= s@);
        lemma_dir_len_bounds(s@);
    }
    let mut i: usize = n;
    while i > 0
        invariant
            0 <= i <= n,
            n == s@.len(),
            dir_len(s@) == dir_len(s@.take(i as int)),
        decreases i,
    {
        if s.get_char(i - 1) == '/' {
            proof {
                assert(s@.take(i as int).last() == '/');
            }
            return i;
        }
        proof {
            assert(s@.take(i as int).drop_last() =~= s@.take(i as int - 1));
            assert(s@.take(i as int).last() != '/');
        }
        i = i - 1;
    }
    proof {
        assert(s@.take(0) =~= Seq::<char>::empty());
    }
    0
}

/// Finds the length of a file name's stem: the scan runs from the
/// end of the name to the last '.'.
fn find_stem_len(name: &str) -> (r: usize)
    ensures
        r as int == stem_len(name@),
        0 <= r <= name@.len(),
{
    let n = name.unicode_len();
    proof {
        assert(name@.take(n as int) =~= name@);
        lemma_last_dot_bounds(name@);
    }
    let mut i: usize = n;
    while i > 0
        invariant
            0 <= i <= n,
            n == name@.len(),
            last_dot_pos(name@) == last_dot_pos(name@.take(i as int)),
        decreases i,
    {
        if name.get_char(i - 1) == '.' {
            proof {
                assert(name@.take(i as int).last() == '.');
            }
            if i - 1 > 0 {
                return i - 1;
            } else {
                return n;
            }
        }
        proof {
            assert(name@.take(i as int).drop_last() =~= name@.take(i as int - 1));
            assert(name@.take(i as int).last() != '.');
        }
        i = i - 1;
    }
    proof {
        assert(name@.take(0) =~= Seq::<char>::empty());
    }
    n
}

/// Builds the output path for a mesh: the sanitised base name with
/// the tally identifier appended and the extension chosen from the
/// output format and the mesh geometry.
pub fn output_path(mesh: &MeshInfo, opts: &ConvertOptions) -> (r: String)
    ensures
        r@ == output_name_spec(opts.output@, mesh.tally_id, opts.format, mesh.geometry),
{
    let base = opts.output.as_str();
    let tl = find_trimmed_len(base);
    let trimmed = base.substring_char(0, tl);
    proof {
        assert(trimmed@ =~= base@.take(tl as int));
    }
    let d = find_dir_len(trimmed);
    let name = trimmed.substring_char(d, tl);
    let mut out: String;
    if name.unicode_len() == 0 {
        out = base.to_owned();
        out.append("fmesh");
    } else if name_is_dot(name) {
        out = trimmed.to_owned();
        out.append("/");
        out.append("fmesh");
    } else {
        out = trimmed.substring_char(0, d).to_owned();
        let se = find_stem_len(name);
        let stem = name.substring_char(0, se);
        proof {
            assert(stem@ =~= name@.take(se as int));
        }
        out.append(stem);
    }
    out.append("_");
    let id_str = u32_decimal(mesh.tally_id);
    out.append(id_str.as_str());
    out.append(".");
    match opts.format {
        VtkFormat::Xml => {
            match mesh.geometry {
                Geometry::Rectangular => out.append("vtr"),
                Geometry::Cylindrical => out.append("vtu"),
            }
        },
        VtkFormat::LegacyAscii => out.append("vtk"),
        VtkFormat::LegacyBinary => out.append("vtk"),
    }
    proof {
        assert(out@ =~= output_name_spec(opts.output@, mesh.tally_id, opts.format, mesh.geometry));
    }
    out
}

} // verus!
