//! Paths as text: components, file names, extensions and joining, as
//! `std::path` reads them on Unix.
use vstd::prelude::*;

use crate::text::{chars_of, lit};

verus! {

/// The last component of a path that is neither empty nor `.`.
pub open spec fn last_component(pieces: Seq<Seq<char>>) -> Option<Seq<char>>
    decreases pieces.len(),
{
    if pieces.len() == 0 {
        None
    } else if pieces.last().len() == 0 || pieces.last() == "."@ {
        last_component(pieces.drop_last())
    } else {
        Some(pieces.last())
    }
}

/// `Path::file_name`: the last component, unless it is `..`.
pub open spec fn spec_file_name(path: Seq<char>) -> Option<Seq<char>> {
    match last_component(crate::text::split_on(path, '/')) {
        Some(c) => if c == ".."@ {
            None
        } else {
            Some(c)
        },
        None => None,
    }
}

/// The position of the last `.` in a name.
pub open spec fn last_dot(name: Seq<char>) -> Option<int>
    decreases name.len(),
{
    if name.len() == 0 {
        None
    } else if name.last() == '.' {
        Some(name.len() - 1)
    } else {
        last_dot(name.drop_last())
    }
}

/// `Path::extension`: what follows the last `.` of the file name, when that
/// dot is not its first character.
pub open spec fn spec_extension(path: Seq<char>) -> Option<Seq<char>> {
    match spec_file_name(path) {
        Some(name) => match last_dot(name) {
            Some(i) => if i > 0 {
                Some(name.skip(i + 1))
            } else {
                None
            },
            None => None,
        },
        None => None,
    }
}

/// `Path::file_name`, as characters.
pub fn file_name_of(path: &str) -> (r: Option<Vec<char>>)
    ensures
        match spec_file_name(path@) {
            Some(n) => r is Some && r->0@ == n,
            None => r is None,
        },
{
    let cs = chars_of(path);
    let pieces = crate::text::split_chars(&cs, '/');
    let ghost p = pieces@.map_values(|e: Vec<char>| e@);
    let mut i: usize = pieces.len();
    proof {
        assert(p.take(p.len() as int) =~= p);
    }
    while i > 0
        invariant
            i <= pieces.len(),
            p == pieces@.map_values(|e: Vec<char>| e@),
            p == crate::text::split_on(path@, '/'),
            last_component(p) == last_component(p.take(i as int)),
        decreases i,
    {
        let piece = &pieces[i - 1];
        proof {
            assert(p.take(i as int).drop_last() =~= p.take(i - 1));
            assert(p.take(i as int).last() == piece@);
        }
        let is_dot = piece.len() == 1 && piece[0] == '.';
        proof {
            reveal_strlit(".");
            if piece@ == "."@ {
                assert(is_dot);
            }
            if is_dot {
                assert(piece@ =~= "."@);
            }
        }
        if piece.len() > 0 && !is_dot {
            let is_parent = piece.len() == 2 && piece[0] == '.' && piece[1] == '.';
            proof {
                reveal_strlit("..");
                if is_parent {
                    assert(piece@ =~= ".."@);
                }
            }
            if is_parent {
                return None;
            }
            return Some(piece.clone());
        }
        i = i - 1;
    }
    proof {
        assert(p.take(0).len() == 0);
    }
    None
}

/// `Path::extension`.
pub fn extension_of(path: &str) -> (r: Option<String>)
    ensures
        match spec_extension(path@) {
            Some(e) => r is Some && r->0@ == e,
            None => r is None,
        },
{
    let name = match file_name_of(path) {
        Some(n) => n,
        None => return None,
    };
    let mut i: usize = name.len();
    proof {
        assert(name@.take(name@.len() as int) =~= name@);
    }
    while i > 0
        invariant
            i <= name.len(),
            spec_file_name(path@) == Some(name@),
            last_dot(name@) == last_dot(name@.take(i as int)),
        decreases i,
    {
        proof {
            assert(name@.take(i as int).drop_last() =~= name@.take(i - 1));
            assert(name@.take(i as int).last() == name@[i - 1]);
        }
        if name[i - 1] == '.' {
            if i - 1 == 0 {
                return None;
            }
            let mut out = String::new();
            let mut k = i;
            while k < name.len()
                invariant
                    i <= k <= name.len(),
                    out@ == name@.subrange(i as int, k as int),
                decreases name.len() - k,
            {
                out.push(name[k]);
                proof {
                    assert(name@.subrange(i as int, k + 1) =~= name@.subrange(i as int, k as int).push(
                        name@[k as int],
                    ));
                }
                k = k + 1;
            }
            proof {
                assert(name@.skip(i as int) =~= name@.subrange(i as int, name.len() as int));
            }
            return Some(out);
        }
        i = i - 1;
    }
    None
}

/// `PathBuf::join` of a relative or absolute piece: an absolute piece
/// replaces the base; otherwise a `/` separates them unless the base is
/// empty or already ends with one.
pub open spec fn spec_join(base: Seq<char>, piece: Seq<char>) -> Seq<char> {
    if piece.len() > 0 && piece[0] == '/' {
        piece
    } else if base.len() == 0 {
        piece
    } else if base.last() == '/' {
        base + piece
    } else {
        base + seq!['/'] + piece
    }
}

/// Joins a path piece onto a base path.
pub fn join(base: &str, piece: &str) -> (r: String)
    ensures
        r@ == spec_join(base@, piece@),
{
    let pc = chars_of(piece);
    if pc.len() > 0 && pc[0] == '/' {
        return lit(piece);
    }
    let bc = chars_of(base);
    if bc.len() == 0 {
        return lit(piece);
    }
    let mut r = lit(base);
    if bc[bc.len() - 1] != '/' {
        r.push('/');
    }
    r.append(piece);
    r
}

} // verus!
