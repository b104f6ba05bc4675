use vstd::prelude::*;
use vstd::string::*;
use vstd::utf8::encode_utf8;

verus! {

/// The text after the last `/` of `s` (all of `s` when it has none).
pub open spec fn last_piece(s: Seq<char>) -> Seq<char>
    decreases s.len(),
{
    if s.len() == 0 {
        s
    } else if s.last() == '/' {
        Seq::empty()
    } else {
        last_piece(s.drop_last()).push(s.last())
    }
}

/// The final component of the path `s`, as `std::path::Path::file_name`
/// finds it on Unix: separators at the end and `.` components are skipped;
/// there is none when the path ends in `..`, is a root, or is empty.
pub open spec fn file_name_of(s: Seq<char>) -> Option<Seq<char>>
    decreases s.len(),
{
    if s.len() == 0 {
        None
    } else if s.last() == '/' {
        file_name_of(s.drop_last())
    } else if last_piece(s) == seq!['.'] {
        if s.len() == 1 {
            None
        } else {
            file_name_of(s.drop_last())
        }
    } else if last_piece(s) == seq!['.', '.'] {
        None
    } else {
        Some(last_piece(s))
    }
}

/// Index of the last `.` in `f`, if any.
pub open spec fn last_dot(f: Seq<char>) -> Option<int>
    decreases f.len(),
{
    if f.len() == 0 {
        None
    } else if f.last() == '.' {
        Some(f.len() - 1)
    } else {
        last_dot(f.drop_last())
    }
}

/// The extension of a file name: the text after its last `.`, unless that
/// dot is the first character.
pub open spec fn ext_of_name(f: Seq<char>) -> Option<Seq<char>> {
    match last_dot(f) {
        Some(i) => if i == 0 {
            None
        } else {
            Some(f.subrange(i + 1, f.len() as int))
        },
        None => None,
    }
}

/// The stem of a file name: the file name without its extension and its dot.
pub open spec fn stem_of_name(f: Seq<char>) -> Seq<char> {
    match last_dot(f) {
        Some(i) => if i == 0 {
            f
        } else {
            f.subrange(0, i)
        },
        None => f,
    }
}

/// The extension of the path `s`.
pub open spec fn extension_of(s: Seq<char>) -> Option<Seq<char>> {
    match file_name_of(s) {
        Some(f) => ext_of_name(f),
        None => None,
    }
}

/// The stem of the path `s`.
pub open spec fn stem_of(s: Seq<char>) -> Option<Seq<char>> {
    match file_name_of(s) {
        Some(f) => Some(stem_of_name(f)),
        None => None,
    }
}

/// Length in bytes of the UTF-8 encoding of `s`.
pub open spec fn byte_len(s: Seq<char>) -> usize {
    encode_utf8(s).len() as usize
}

/// Compression suffixes that usually follow another extension.
pub open spec fn is_additive(e: Seq<char>) -> bool {
    e == "gz"@ || e == "xz"@ || e == "bz2"@ || e == "lz4"@ || e == "zst"@
}

/// The extension a saved upload gets from its original file name: the last
/// extension, preceded by the one before it when the last is a compression
/// suffix and the one before is at most four bytes long (`tar.gz`).
pub open spec fn upload_ext_of(name: Seq<char>) -> Option<Seq<char>> {
    match extension_of(name) {
        Some(e) => if is_additive(e) {
            match extension_of(stem_of(name).unwrap()) {
                Some(second) => if byte_len(second) <= 4 {
                    Some(second + seq!['.'] + e)
                } else {
                    Some(e)
                },
                None => Some(e),
            }
        } else {
            Some(e)
        },
        None => None,
    }
}

/// The characters of `s`.
pub fn chars_of(s: &str) -> (r: Vec<char>)
    ensures
        r@ == s@,
{
    let n = s.unicode_len();
    let mut r: Vec<char> = Vec::new();
    let mut i: usize = 0;
    while i < n
        invariant
            n == s@.len(),
            i <= n,
            r@ == s@.subrange(0, i as int),
        decreases n - i,
    {
        r.push(s.get_char(i));
        i = i + 1;
        assert(r@ =~= s@.subrange(0, i as int));
    }
    assert(r@ =~= s@);
    r
}

/// A string holding the characters `s[from..to]`.
pub fn string_of(s: &str, from: usize, to: usize) -> (r: String)
    requires
        from <= to <= s@.len(),
    ensures
        r@ == s@.subrange(from as int, to as int),
{
    String::from_str(s.substring_char(from, to))
}

proof fn lemma_last_piece_from(s: Seq<char>, b: int)
    requires
        0 <= b <= s.len(),
        b == 0 || s[b - 1] == '/',
        forall|i: int| b <= i < s.len() ==> s[i] != '/',
    ensures
        last_piece(s) == s.subrange(b, s.len() as int),
    decreases s.len(),
{
    if s.len() == b {
        if s.len() > 0 {
            assert(s.last() == '/');
        }
        assert(s.subrange(b, s.len() as int) =~= Seq::<char>::empty());
    } else {
        lemma_last_piece_from(s.drop_last(), b);
        assert(s.subrange(b, s.len() as int) =~= s.drop_last().subrange(
            b,
            s.len() - 1,
        ).push(s.last()));
    }
}

/// The final component of the path `c[..end]`.
fn file_name_range(c: &Vec<char>, end: usize) -> (r: Option<(usize, usize)>)
    requires
        end <= c@.len(),
    ensures
        match r {
            Some((b, e)) => b <= e <= end && file_name_of(c@.subrange(0, end as int)) == Some(
                c@.subrange(b as int, e as int),
            ),
            None => file_name_of(c@.subrange(0, end as int)) is None,
        },
{
    let mut e: usize = end;
    loop
        invariant
            e <= end <= c@.len(),
            file_name_of(c@.subrange(0, end as int)) == file_name_of(c@.subrange(0, e as int)),
        decreases e,
    {
        let ghost s = c@.subrange(0, e as int);
        if e == 0 {
            return None;
        }
        assert(s.drop_last() =~= c@.subrange(0, e - 1));
        if c[e - 1] == '/' {
            e = e - 1;
        } else {
            let mut b: usize = e - 1;
            while b > 0 && c[b - 1] != '/'
                invariant
                    b < e <= c@.len(),
                    forall|i: int| b <= i < e ==> c@[i] != '/',
                decreases b,
            {
                b = b - 1;
            }
            proof {
                lemma_last_piece_from(s, b as int);
                assert(s.subrange(b as int, e as int) =~= c@.subrange(b as int, e as int));
            }
            let ghost p = c@.subrange(b as int, e as int);
            if e - b == 1 && c[b] == '.' {
                assert(p =~= seq!['.']);
                if e == 1 {
                    return None;
                }
                e = e - 1;
            } else if e - b == 2 && c[b] == '.' && c[b + 1] == '.' {
                assert(p =~= seq!['.', '.']);
                return None;
            } else {
                assert(p != seq!['.']) by {
                    if p == seq!['.'] {
                        assert(p.len() == 1 && p[0] == '.');
                        assert(c@[b as int] == p[0]);
                    }
                }
                assert(p != seq!['.', '.']) by {
                    if p == seq!['.', '.'] {
                        assert(p.len() == 2 && p[0] == '.' && p[1] == '.');
                        assert(c@[b as int] == p[0] && c@[b + 1] == p[1]);
                    }
                }
                return Some((b, e));
            }
        }
    }
}

/// The position of the last `.` in `c[b..e]`.
fn last_dot_in(c: &Vec<char>, b: usize, e: usize) -> (r: Option<usize>)
    requires
        b <= e <= c@.len(),
    ensures
        match r {
            Some(i) => b <= i < e && last_dot(c@.subrange(b as int, e as int)) == Some(i - b),
            None => last_dot(c@.subrange(b as int, e as int)) is None,
        },
{
    let mut j: usize = e;
    while j > b
        invariant
            b <= j <= e <= c@.len(),
            last_dot(c@.subrange(b as int, e as int)) == last_dot(c@.subrange(b as int, j as int)),
        decreases j,
    {
        let ghost f = c@.subrange(b as int, j as int);
        assert(f.drop_last() =~= c@.subrange(b as int, j - 1));
        if c[j - 1] == '.' {
            return Some(j - 1);
        }
        j = j - 1;
    }
    None
}

/// The final component of the path `s`, without any directory part.
pub fn file_name(s: &str) -> (r: Option<String>)
    ensures
        match r {
            Some(f) => file_name_of(s@) == Some(f@),
            None => file_name_of(s@) is None,
        },
{
    let c = chars_of(s);
    assert(c@.subrange(0, c@.len() as int) =~= s@);
    match file_name_range(&c, c.len()) {
        Some((b, e)) => Some(string_of(s, b, e)),
        None => None,
    }
}

/// The extension of the path `s`.
pub fn extension(s: &str) -> (r: Option<String>)
    ensures
        match r {
            Some(x) => extension_of(s@) == Some(x@),
            None => extension_of(s@) is None,
        },
{
    let c = chars_of(s);
    assert(c@.subrange(0, c@.len() as int) =~= s@);
    match file_name_range(&c, c.len()) {
        Some((b, e)) => match last_dot_in(&c, b, e) {
            Some(i) => if i == b {
                None
            } else {
                proof {
                    let f = c@.subrange(b as int, e as int);
                    assert(f.subrange(i - b + 1, f.len() as int) =~= c@.subrange(
                        i + 1,
                        e as int,
                    ));
                }
                Some(string_of(s, i + 1, e))
            },
            None => None,
        },
        None => None,
    }
}

/// The stem of the path `s`: its final component without the extension.
pub fn file_stem(s: &str) -> (r: Option<String>)
    ensures
        match r {
            Some(x) => stem_of(s@) == Some(x@),
            None => stem_of(s@) is None,
        },
{
    let c = chars_of(s);
    assert(c@.subrange(0, c@.len() as int) =~= s@);
    match file_name_range(&c, c.len()) {
        Some((b, e)) => match last_dot_in(&c, b, e) {
            Some(i) => if i == b {
                Some(string_of(s, b, e))
            } else {
                proof {
                    let f = c@.subrange(b as int, e as int);
                    assert(f.subrange(0, i - b) =~= c@.subrange(b as int, i as int));
                }
                Some(string_of(s, b, i))
            },
            None => Some(string_of(s, b, e)),
        },
        None => None,
    }
}

/// Whether `e` is one of the compression suffixes.
fn is_additive_ext(e: &str) -> (r: bool)
    ensures
        r == is_additive(e@),
{
    let c = chars_of(e);
    proof {
        reveal_strlit("gz");
        reveal_strlit("xz");
        reveal_strlit("bz2");
        reveal_strlit("lz4");
        reveal_strlit("zst");
    }
    let n = c.len();
    if n == 2 {
        let r = (c[0] == 'g' && c[1] == 'z') || (c[0] == 'x' && c[1] == 'z');
        assert(r ==> c@ =~= "gz"@ || c@ =~= "xz"@);
        r
    } else if n == 3 {
        let r = (c[0] == 'b' && c[1] == 'z' && c[2] == '2') || (c[0] == 'l' && c[1] == 'z' && c[2]
            == '4') || (c[0] == 'z' && c[1] == 's' && c[2] == 't');
        assert(r ==> c@ =~= "bz2"@ || c@ =~= "lz4"@ || c@ =~= "zst"@);
        r
    } else {
        false
    }
}

/// The extension a saved upload gets from its original file name `name`,
/// keeping compound suffixes such as `tar.gz` together.
pub fn upload_ext(name: &str) -> (r: Option<String>)
    ensures
        match r {
            Some(x) => upload_ext_of(name@) == Some(x@),
            None => upload_ext_of(name@) is None,
        },
{
    let ext = extension(name);
    match ext {
        None => None,
        Some(e) => {
            if is_additive_ext(e.as_str()) {
                let stem = file_stem(name);
                proof {
                    assert(file_name_of(name@) is Some);
                }
                match stem {
                    Some(st) => match extension(st.as_str()) {
                        Some(second) => {
                            assert(stem_of(name@).unwrap() == st@);
                            if second.as_str().len() <= 4 {
                                proof {
                                    reveal_strlit(".");
                                }
                                let mut out = second;
                                out.append(".");
                                out.append(e.as_str());
                                assert(out@ =~= second@ + seq!['.'] + e@);
                                Some(out)
                            } else {
                                Some(e)
                            }
                        },
                        None => Some(e),
                    },
                    None => Some(e),
                }
            } else {
                Some(e)
            }
        },
    }
}

} // verus!
