//! The named-curve store: merging the curve documents found under the
//! persistence roots.
//!
//! The process around the library lists each storage root and hands the
//! library the file names and contents; the merge keeps, in order of
//! appearance, every curve document whose name was not seen before —
//! first found wins — and skips files without the curve extension or
//! with undecodable content.

use vstd::prelude::*;
use crate::codec::CurveModel;
use crate::codec::curve_model;
use crate::codec::parse_curve_doc;
use crate::fan::FanCurve;
use crate::text::eq_str;
use crate::text::str_ends_with;

verus! {

/// One file of a storage root: its name and its content.
pub struct NamedFile {
    pub name: String,
    pub content: String,
}

/// Whether a curve with this name was already collected.
pub open spec fn spec_has_curve_named(acc: Seq<CurveModel>, name: Seq<char>) -> bool {
    exists|k: int| 0 <= k < acc.len() && (#[trigger] acc[k]).name == name
}

/// What one file contributes to the collection: a curve document with a
/// fresh name is appended; anything else leaves the collection alone.
pub open spec fn spec_add_file(
    acc: Seq<CurveModel>,
    fname: Seq<char>,
    content: Seq<char>,
) -> Seq<CurveModel> {
    if fname.len() >= ".json"@.len() && fname.skip(fname.len() - ".json"@.len()) == ".json"@ {
        match parse_curve_doc(content) {
            Some(c) => if spec_has_curve_named(acc, c.name) {
                acc
            } else {
                acc.push(c)
            },
            None => acc,
        }
    } else {
        acc
    }
}

/// The collection after one root's files, in order.
pub open spec fn spec_load_dir(files: Seq<NamedFile>, acc: Seq<CurveModel>) -> Seq<CurveModel>
    decreases files.len(),
{
    if files.len() == 0 {
        acc
    } else {
        spec_load_dir(files.drop_first(), spec_add_file(acc, files[0].name@, files[0].content@))
    }
}

/// The collection after all roots, in order.
pub open spec fn spec_load_dirs(dirs: Seq<Vec<NamedFile>>, acc: Seq<CurveModel>) -> Seq<CurveModel>
    decreases dirs.len(),
{
    if dirs.len() == 0 {
        acc
    } else {
        spec_load_dirs(dirs.drop_first(), spec_load_dir(dirs[0]@, acc))
    }
}

/// The file-name character for a curve-name character: a space becomes
/// an underscore, an ASCII capital letter its small form, anything else
/// stays, given by code.
pub open spec fn spec_file_char_code(c: char) -> int {
    if c == ' ' {
        95
    } else {
        crate::text::ascii_lower_code(c)
    }
}

/// The file name a curve is stored under: its name with spaces turned to
/// underscores and ASCII capitals folded, plus the curve extension.
pub fn curve_file_name(name: &str) -> (r: String)
    ensures
        r@.len() == name@.len() + 5,
        forall|i: int| 0 <= i < name@.len() ==> (#[trigger] r@[i]) as u32 == spec_file_char_code(
            name@[i],
        ),
        r@.skip(name@.len() as int) == seq!['.', 'j', 's', 'o', 'n'],
{
    let n = name.unicode_len();
    let mut out = String::new();
    let mut i: usize = 0;
    while i < n
        invariant
            0 <= i <= n,
            n == name@.len(),
            out@.len() == i,
            forall|k: int| 0 <= k < i ==> (#[trigger] out@[k]) as u32 == spec_file_char_code(
                name@[k],
            ),
        decreases n - i,
    {
        let c = name.get_char(i);
        let cv = c as u32;
        if c == ' ' {
            out.append("_");
            proof {
                reveal_strlit("_");
                assert("_"@ =~= seq!['_']);
            }
        } else if 65 <= cv && cv <= 90 {
            out.append(lower_ascii(c));
        } else {
            out.append(name.substring_char(i, i + 1));
            proof {
                assert(name@.subrange(i as int, i + 1) =~= seq![c]);
            }
        }
        i = i + 1;
    }
    out.append(".json");
    proof {
        reveal_strlit(".json");
        assert(".json"@ =~= seq!['.', 'j', 's', 'o', 'n']);
        assert(out@.skip(name@.len() as int) =~= seq!['.', 'j', 's', 'o', 'n']);
    }
    out
}

/// The small form of an ASCII capital letter.
fn lower_ascii(c: char) -> (r: &'static str)
    requires
        65 <= c as u32 <= 90,
    ensures
        r@.len() == 1,
        (r@[0]) as u32 == c as u32 + 32,
{
    proof {
        reveal_strlit("a");
        reveal_strlit("b");
        reveal_strlit("c");
        reveal_strlit("d");
        reveal_strlit("e");
        reveal_strlit("f");
        reveal_strlit("g");
        reveal_strlit("h");
        reveal_strlit("i");
        reveal_strlit("j");
        reveal_strlit("k");
        reveal_strlit("l");
        reveal_strlit("m");
        reveal_strlit("n");
        reveal_strlit("o");
        reveal_strlit("p");
        reveal_strlit("q");
        reveal_strlit("r");
        reveal_strlit("s");
        reveal_strlit("t");
        reveal_strlit("u");
        reveal_strlit("v");
        reveal_strlit("w");
        reveal_strlit("x");
        reveal_strlit("y");
        reveal_strlit("z");
    }
    if c == 'A' {
        "a"
    } else if c == 'B' {
        "b"
    } else if c == 'C' {
        "c"
    } else if c == 'D' {
        "d"
    } else if c == 'E' {
        "e"
    } else if c == 'F' {
        "f"
    } else if c == 'G' {
        "g"
    } else if c == 'H' {
        "h"
    } else if c == 'I' {
        "i"
    } else if c == 'J' {
        "j"
    } else if c == 'K' {
        "k"
    } else if c == 'L' {
        "l"
    } else if c == 'M' {
        "m"
    } else if c == 'N' {
        "n"
    } else if c == 'O' {
        "o"
    } else if c == 'P' {
        "p"
    } else if c == 'Q' {
        "q"
    } else if c == 'R' {
        "r"
    } else if c == 'S' {
        "s"
    } else if c == 'T' {
        "t"
    } else if c == 'U' {
        "u"
    } else if c == 'V' {
        "v"
    } else if c == 'W' {
        "w"
    } else if c == 'X' {
        "x"
    } else if c == 'Y' {
        "y"
    } else {
        "z"
    }
}

/// Whether a curve with this name was already collected.
fn contains_name(out: &Vec<FanCurve>, name: &str) -> (r: bool)
    ensures
        r == exists|k: int|
            0 <= k < out@.len() && (#[trigger] out@[k]).spec_name() == name@,
{
    let n = out.len();
    let mut i: usize = 0;
    while i < n
        invariant
            0 <= i <= n,
            n == out@.len(),
            forall|k: int| 0 <= k < i ==> (#[trigger] out@[k]).spec_name() != name@,
        decreases n - i,
    {
        if eq_str(out[i].name(), name) {
            return true;
        }
        i = i + 1;
    }
    false
}

/// Collects the named curves of the storage roots: every curve document
/// under any root, first found wins on a repeated name, files without
/// the curve extension or with undecodable content skipped.
pub fn load_all_fan_curves(dirs: &Vec<Vec<NamedFile>>) -> (r: Vec<FanCurve>)
    ensures
        ({
            let m = spec_load_dirs(dirs@, Seq::empty());
            r@.len() == m.len() && (forall|k: int|
                0 <= k < m.len() ==> curve_model(&(#[trigger] r@[k])) == m[k])
        }),
{
    let mut out: Vec<FanCurve> = Vec::new();
    let ghost mut macc: Seq<CurveModel> = Seq::empty();
    let nd = dirs.len();
    let mut i: usize = 0;
    proof {
        assert(dirs@.skip(0) =~= dirs@);
    }
    while i < nd
        invariant
            0 <= i <= nd,
            nd == dirs@.len(),
            macc.len() == out@.len(),
            forall|k: int| 0 <= k < macc.len() ==> curve_model(&(#[trigger] out@[k])) == macc[k],
            spec_load_dirs(dirs@, Seq::empty()) == spec_load_dirs(dirs@.skip(i as int), macc),
        decreases nd - i,
    {
        let files = &dirs[i];
        let nf = files.len();
        let mut j: usize = 0;
        proof {
            assert(dirs@.skip(i as int)[0] == dirs@[i as int]);
            assert(dirs@.skip(i as int).drop_first() =~= dirs@.skip(i + 1));
            assert(files@.skip(0) =~= files@);
        }
        let ghost dir_target = spec_load_dir(files@, macc);
        while j < nf
            invariant
                0 <= j <= nf,
                nf == files@.len(),
                macc.len() == out@.len(),
                forall|k: int|
                    0 <= k < macc.len() ==> curve_model(&(#[trigger] out@[k])) == macc[k],
                dir_target == spec_load_dir(files@.skip(j as int), macc),
            decreases nf - j,
        {
            let f = &files[j];
            proof {
                assert(files@.skip(j as int)[0] == files@[j as int]);
                assert(files@.skip(j as int).drop_first() =~= files@.skip(j + 1));
            }
            let ghost macc0 = macc;
            if str_ends_with(f.name.as_str(), ".json") {
                match crate::codec::curve_from_json(f.content.as_str()) {
                    Ok(curve) => {
                        let dup = contains_name(&out, curve.name());
                        proof {
                            if dup {
                                let k = choose|k: int|
                                    0 <= k < out@.len() && (#[trigger] out@[k]).spec_name()
                                        == curve.spec_name();
                                assert(macc[k].name == curve_model(&curve).name);
                            } else {
                                assert forall|k: int|
                                    0 <= k < macc.len() implies (#[trigger] macc[k]).name
                                    != curve_model(&curve).name by {
                                    assert(curve_model(&out@[k]).name == macc[k].name);
                                }
                            }
                            assert(dup == spec_has_curve_named(macc, curve_model(&curve).name));
                        }
                        if !dup {
                            proof {
                                macc = macc.push(curve_model(&curve));
                            }
                            out.push(curve);
                        }
                    },
                    Err(_) => {},
                }
            }
            proof {
                let jj = j as int;
                assert(macc == spec_add_file(macc0, files@[jj].name@, files@[jj].content@));
            }
            j = j + 1;
        }
        proof {
            assert(files@.skip(nf as int).len() == 0);
        }
        i = i + 1;
    }
    proof {
        assert(dirs@.skip(nd as int).len() == 0);
    }
    out
}

} // verus!
