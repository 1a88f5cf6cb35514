//! Where a command's program may be found: the paths to probe, worked out
//! from the command and `$PATH`. Probing them is left to the caller.

use vstd::prelude::*;

use crate::text::{contains_char, lemma_views_push, push_str, split, split_all, views};

verus! {

/// `/`.
pub const SLASH: u8 = 47;

/// `:`.
pub const COLON: u8 = 58;

/// `.`.
pub const DOT: u8 = 46;

/// `Path::join(dir, name)` for a `name` with no `/` in it.
pub open spec fn joined(dir: Seq<char>, name: Seq<char>) -> Seq<char> {
    if dir.len() == 0 {
        name
    } else if dir.last() == '/' {
        dir + name
    } else {
        dir + seq!['/'] + name
    }
}

/// The paths a `TryExec` binary may be at: the value itself when it holds a
/// `/`, else the value under each element of `path_var`, an empty element
/// standing for a relative lookup.
pub open spec fn try_exec_paths(binary: Seq<char>, path_var: Seq<char>) -> Seq<Seq<char>> {
    if binary.contains('/') {
        seq![binary]
    } else {
        split(path_var, ':').map_values(|dir: Seq<char>| joined(dir, binary))
    }
}

/// The paths `TryExec`'s binary is looked for at, in order; `path_var` is
/// `$PATH`, empty when unset. The binary exists when one of them is a file.
pub fn try_exec_candidates(binary: &str, path_var: &str) -> (r: Vec<String>)
    ensures
        views(r@) == try_exec_paths(binary@, path_var@),
{
    let mut r: Vec<String> = Vec::new();
    if contains_char(binary, '/') {
        let b = binary.to_owned();
        proof {
            lemma_views_push(r@, b);
        }
        r.push(b);
        assert(views(r@) =~= seq![binary@]);
        return r;
    }
    let dirs = split_all(path_var, ':');
    let ghost expected = try_exec_paths(binary@, path_var@);
    let mut i: usize = 0;
    while i < dirs.len()
        invariant
            i <= dirs@.len(),
            !binary@.contains('/'),
            views(dirs@) == split(path_var@, ':'),
            expected == split(path_var@, ':').map_values(|dir: Seq<char>| joined(dir, binary@)),
            views(r@) == expected.take(i as int),
        decreases dirs@.len() - i,
    {
        let dir = &dirs[i];
        let mut p = dir.clone();
        let d = dir.as_str();
        let ghost dv = views(dirs@)[i as int];
        assert(dv == dir@);
        if !d.is_empty() {
            let dc = crate::text::chars_of(d);
            if dc[dc.len() - 1] != '/' {
                p.push('/');
            }
        }
        push_str(&mut p, binary);
        assert(p@ =~= joined(dv, binary@));
        proof {
            lemma_views_push(r@, p);
        }
        r.push(p);
        i = i + 1;
        assert(views(r@) =~= expected.take(i as int));
    }
    assert(expected.take(i as int) =~= expected);
    r
}

/// `s` split on the byte `sep`, empty pieces included, read from `s` on with
/// `cur` the piece read so far.
pub open spec fn byte_pieces_from(s: Seq<u8>, sep: u8, cur: Seq<u8>) -> Seq<Seq<u8>>
    decreases s.len(),
{
    if s.len() == 0 {
        seq![cur]
    } else if s[0] == sep {
        seq![cur] + byte_pieces_from(s.skip(1), sep, seq![])
    } else {
        byte_pieces_from(s.skip(1), sep, cur.push(s[0]))
    }
}

/// The search path used when `$PATH` is unset or empty: the bytes of
/// `/bin:/usr/bin:.`.
pub open spec fn default_search_path() -> Seq<u8> {
    seq![
        47u8, 98, 105, 110, 58, 47, 117, 115, 114, 47, 98, 105, 110, 58, 46,
    ]
}

/// A directory of the search path joined with `program`: an empty element
/// is the working directory.
pub open spec fn search_path_entry(dir: Seq<u8>, program: Seq<u8>) -> Seq<u8> {
    if dir.len() == 0 {
        seq![DOT, SLASH] + program
    } else if dir.last() == SLASH {
        dir + program
    } else {
        dir + seq![SLASH] + program
    }
}

/// Where the program of a command line may be: the program itself when it
/// holds a `/`, else the program under every directory of `path` (`$PATH`,
/// `None` when unset; empty or unset means `/bin:/usr/bin:.`).
pub open spec fn program_paths(program: Seq<u8>, path: Option<Seq<u8>>) -> Seq<Seq<u8>> {
    if program.contains(SLASH) {
        seq![program]
    } else {
        let p = match path {
            Some(p) => if p.len() > 0 {
                p
            } else {
                default_search_path()
            },
            None => default_search_path(),
        };
        byte_pieces_from(p, COLON, seq![]).map_values(|dir: Seq<u8>| search_path_entry(dir, program))
    }
}

fn default_search_path_bytes() -> (r: Vec<u8>)
    ensures
        r@ == default_search_path(),
{
    let r: Vec<u8> = vec![
        47, 98, 105, 110, 58, 47, 117, 115, 114, 47, 98, 105, 110, 58, 46,
    ];
    assert(r@ =~= default_search_path());
    r
}

fn append_bytes(r: &mut Vec<u8>, s: &[u8])
    ensures
        final(r)@ == old(r)@ + s@,
{
    let mut i: usize = 0;
    while i < s.len()
        invariant
            i <= s@.len(),
            r@ == old(r)@ + s@.take(i as int),
        decreases s@.len() - i,
    {
        r.push(s[i]);
        i = i + 1;
        assert(r@ =~= old(r)@ + s@.take(i as int));
    }
    assert(s@.take(i as int) =~= s@);
}

fn search_path_join(dir: &[u8], a: usize, b: usize, program: &[u8]) -> (r: Vec<u8>)
    requires
        a <= b <= dir@.len(),
    ensures
        r@ == search_path_entry(dir@.subrange(a as int, b as int), program@),
{
    let mut r: Vec<u8> = Vec::new();
    if a == b {
        r.push(DOT);
        r.push(SLASH);
    } else {
        let mut i: usize = a;
        while i < b
            invariant
                a <= i <= b <= dir@.len(),
                r@ == dir@.subrange(a as int, i as int),
            decreases b - i,
        {
            r.push(dir[i]);
            i = i + 1;
            assert(r@ =~= dir@.subrange(a as int, i as int));
        }
        if dir[b - 1] != SLASH {
            r.push(SLASH);
        }
    }
    let ghost r0 = r@;
    append_bytes(&mut r, program);
    assert(r@ =~= search_path_entry(dir@.subrange(a as int, b as int), program@));
    r
}

/// The paths the program of a command line is looked for at, in order: the
/// program once it holds a `/`, else the program under each directory of
/// `path`. The program exists when one of them is an executable file.
pub fn program_candidates(program: &[u8], path: Option<&[u8]>) -> (r: Vec<Vec<u8>>)
    ensures
        r@.map_values(|x: Vec<u8>| x@) == program_paths(
            program@,
            match path {
                Some(p) => Some(p@),
                None => None,
            },
        ),
{
    let ghost pv: Option<Seq<u8>> = match path {
        Some(p) => Some(p@),
        None => None,
    };
    let mut r: Vec<Vec<u8>> = Vec::new();
    let mut k: usize = 0;
    while k < program.len()
        invariant
            k <= program@.len(),
            r@.len() == 0,
            forall|j: int| 0 <= j < k ==> program@[j] != SLASH,
        decreases program@.len() - k,
    {
        if program[k] == SLASH {
            let mut p: Vec<u8> = Vec::new();
            append_bytes(&mut p, program);
            assert(p@ =~= program@);
            assert(program@.contains(SLASH)) by {
                assert(program@[k as int] == SLASH);
            }
            r.push(p);
            assert(r@.map_values(|x: Vec<u8>| x@) =~= seq![program@]);
            return r;
        }
        k = k + 1;
    }
    assert(!program@.contains(SLASH));
    let search: Vec<u8> = match path {
        Some(p) => {
            if p.len() > 0 {
                let mut v: Vec<u8> = Vec::new();
                append_bytes(&mut v, p);
                assert(v@ =~= p@);
                v
            } else {
                default_search_path_bytes()
            }
        },
        None => default_search_path_bytes(),
    };
    let ghost expected = program_paths(program@, pv);
    let ghost sv = search@;
    assert(expected == byte_pieces_from(sv, COLON, seq![]).map_values(
        |dir: Seq<u8>| search_path_entry(dir, program@),
    ));
    let n = search.len();
    let mut start: usize = 0;
    let mut i: usize = 0;
    assert(sv.subrange(0, n as int) =~= sv);
    assert(sv.subrange(0, 0) =~= Seq::<u8>::empty());
    assert(r@.map_values(|x: Vec<u8>| x@) =~= Seq::<Seq<u8>>::empty());
    while i < n
        invariant
            n == sv.len(),
            sv == search@,
            start <= i <= n,
            r@.map_values(|x: Vec<u8>| x@) + byte_pieces_from(
                sv.subrange(i as int, n as int),
                COLON,
                sv.subrange(start as int, i as int),
            ).map_values(|dir: Seq<u8>| search_path_entry(dir, program@)) == expected,
        decreases n - i,
    {
        let ghost rest = sv.subrange(i as int, n as int);
        let ghost before = r@.map_values(|x: Vec<u8>| x@);
        assert(rest.skip(1) =~= sv.subrange(i + 1, n as int));
        if search[i] == COLON {
            let p = search_path_join(&search, start, i, program);
            r.push(p);
            i = i + 1;
            start = i;
            assert(sv.subrange(start as int, i as int) =~= Seq::<u8>::empty());
            assert(r@.map_values(|x: Vec<u8>| x@) + byte_pieces_from(
                sv.subrange(i as int, n as int),
                COLON,
                sv.subrange(start as int, i as int),
            ).map_values(|dir: Seq<u8>| search_path_entry(dir, program@)) =~= expected);
        } else {
            i = i + 1;
            assert(sv.subrange(start as int, i as int) =~= sv.subrange(start as int, i - 1).push(
                sv[i - 1],
            ));
        }
    }
    let p = search_path_join(&search, start, n, program);
    r.push(p);
    assert(sv.subrange(n as int, n as int) =~= Seq::<u8>::empty());
    assert(r@.map_values(|x: Vec<u8>| x@) =~= expected);
    r
}

/// Whether a path whose metadata reads `is_file` and `mode` is a program:
/// a regular file with one of its three execute bits set.
pub fn is_executable_mode(is_file: bool, mode: u32) -> (r: bool)
    ensures
        r == (is_file && (mode & 0o111u32) != 0),
{
    is_file && (mode & 0o111u32) != 0
}

/// What finding a command's program comes to once its command line was
/// parsed into words.
pub enum ProgramLookup {
    /// Nothing to look up: the entry is left alone, as if the program
    /// existed.
    Keep,
    /// The program exists when one of these paths is an executable file.
    Probe(Vec<Vec<u8>>),
}

/// The lookup `binary_exists` makes of a command line: `argv` is the line
/// parsed into words, `None` when it could not be parsed; `path` is `$PATH`,
/// `None` when unset. A line that cannot be parsed, or holds no word, is
/// kept; otherwise only its first word, the program, is looked up.
pub fn program_lookup(argv: Option<&[Vec<u8>]>, path: Option<&[u8]>) -> (r: ProgramLookup)
    ensures
        match argv {
            None => r is Keep,
            Some(a) => if a@.len() == 0 {
                r is Keep
            } else {
                r matches ProgramLookup::Probe(c) && c@.map_values(|x: Vec<u8>| x@) == program_paths(
                    a@[0]@,
                    match path {
                        Some(p) => Some(p@),
                        None => None,
                    },
                )
            },
        },
{
    match argv {
        None => ProgramLookup::Keep,
        Some(a) => {
            if a.len() == 0 {
                ProgramLookup::Keep
            } else {
                ProgramLookup::Probe(program_candidates(a[0].as_slice(), path))
            }
        },
    }
}

} // verus!
