//! Character-level string helpers with their meaning stated over `Seq<char>`.

use vstd::prelude::*;
use vstd::string::*;

verus! {

/// `char::is_whitespace`: the Unicode `White_Space` property.
pub open spec fn is_ws(c: char) -> bool {
    let u = c as u32;
    ||| u == 0x20
    ||| 0x09 <= u <= 0x0d
    ||| u == 0x85
    ||| u == 0xa0
    ||| u == 0x1680
    ||| 0x2000 <= u <= 0x200a
    ||| u == 0x2028
    ||| u == 0x2029
    ||| u == 0x202f
    ||| u == 0x205f
    ||| u == 0x3000
}

/// Which characters a strip removes.
#[derive(Clone, Copy, Debug, PartialEq, Eq)]
pub enum Strip {
    Whitespace,
    Slash,
}

pub open spec fn stripped(cls: Strip, c: char) -> bool {
    match cls {
        Strip::Whitespace => is_ws(c),
        Strip::Slash => c == '/',
    }
}

/// `s` with every leading character of class `cls` removed.
pub open spec fn strip_front(s: Seq<char>, cls: Strip) -> Seq<char>
    decreases s.len(),
{
    if s.len() > 0 && stripped(cls, s[0]) {
        strip_front(s.drop_first(), cls)
    } else {
        s
    }
}

/// `s` with every trailing character of class `cls` removed.
pub open spec fn strip_back(s: Seq<char>, cls: Strip) -> Seq<char>
    decreases s.len(),
{
    if s.len() > 0 && stripped(cls, s.last()) {
        strip_back(s.drop_last(), cls)
    } else {
        s
    }
}

/// `str::trim`.
pub open spec fn trimmed(s: Seq<char>) -> Seq<char> {
    strip_back(strip_front(s, Strip::Whitespace), Strip::Whitespace)
}

/// True when `s` is empty after trimming, i.e. made of whitespace only.
pub open spec fn blank(s: Seq<char>) -> bool {
    trimmed(s).len() == 0
}

pub fn is_whitespace(c: char) -> (r: bool)
    ensures
        r == is_ws(c),
{
    let u = c as u32;
    u == 0x20 || (0x09 <= u && u <= 0x0d) || u == 0x85 || u == 0xa0 || u == 0x1680 || (0x2000
        <= u && u <= 0x200a) || u == 0x2028 || u == 0x2029 || u == 0x202f || u == 0x205f || u
        == 0x3000
}

fn is_stripped(cls: Strip, c: char) -> (r: bool)
    ensures
        r == stripped(cls, c),
{
    match cls {
        Strip::Whitespace => is_whitespace(c),
        Strip::Slash => c == '/',
    }
}

/// Removes characters of class `cls` from the front and/or the back of `s`.
pub fn strip<'a>(s: &'a str, cls: Strip, front: bool, back: bool) -> (r: &'a str)
    ensures
        r@ == ({
            let f = if front {
                strip_front(s@, cls)
            } else {
                s@
            };
            if back {
                strip_back(f, cls)
            } else {
                f
            }
        }),
{
    let n = s.unicode_len();
    let mut i: usize = 0;
    if front {
        assert(s@.subrange(0, n as int) =~= s@);
        while i < n && is_stripped(cls, s.get_char(i))
            invariant
                i <= n,
                n == s@.len(),
                strip_front(s@, cls) == strip_front(s@.subrange(i as int, n as int), cls),
            decreases n - i,
        {
            assert(s@.subrange(i as int, n as int).drop_first() =~= s@.subrange(
                i as int + 1,
                n as int,
            ));
            i = i + 1;
        }
    }
    let ghost f = s@.subrange(i as int, n as int);
    assert(f == (if front {
        strip_front(s@, cls)
    } else {
        s@
    })) by {
        if !front {
            assert(s@.subrange(0, n as int) =~= s@);
        }
    }
    let mut j: usize = n;
    if back {
        while j > i && is_stripped(cls, s.get_char(j - 1))
            invariant
                i <= j <= n,
                n == s@.len(),
                f == s@.subrange(i as int, n as int),
                strip_back(f, cls) == strip_back(s@.subrange(i as int, j as int), cls),
            decreases j - i,
        {
            assert(s@.subrange(i as int, j as int).drop_last() =~= s@.subrange(
                i as int,
                j as int - 1,
            ));
            j = j - 1;
        }
    }
    s.substring_char(i, j)
}

/// `str::trim`.
pub fn trim<'a>(s: &'a str) -> (r: &'a str)
    ensures
        r@ == trimmed(s@),
{
    strip(s, Strip::Whitespace, true, true)
}

/// True when `s` holds nothing but whitespace.
pub fn is_blank(s: &str) -> (r: bool)
    ensures
        r == blank(s@),
{
    trim(s).unicode_len() == 0
}


/// `str::starts_with` with a string pattern.
pub open spec fn has_prefix(s: Seq<char>, p: Seq<char>) -> bool {
    p.len() <= s.len() && s.subrange(0, p.len() as int) == p
}

/// `str::starts_with` with a string pattern.
pub fn starts_with(s: &str, p: &str) -> (r: bool)
    ensures
        r == has_prefix(s@, p@),
{
    let n = s.unicode_len();
    let m = p.unicode_len();
    if m > n {
        return false;
    }
    let mut i: usize = 0;
    while i < m
        invariant
            i <= m <= n,
            n == s@.len(),
            m == p@.len(),
            forall|k: int| 0 <= k < i ==> s@[k] == p@[k],
        decreases m - i,
    {
        if s.get_char(i) != p.get_char(i) {
            assert(s@.subrange(0, m as int)[i as int] != p@[i as int]);
            return false;
        }
        i = i + 1;
    }
    assert(s@.subrange(0, m as int) =~= p@);
    true
}

/// String equality.
pub fn str_eq(a: &str, b: &str) -> (r: bool)
    ensures
        r == (a@ == b@),
{
    let x = a.to_owned();
    let y = b.to_owned();
    x == y
}

/// Copies a string slice into an owned `String`.
pub fn owned(s: &str) -> (r: String)
    ensures
        r@ == s@,
{
    s.to_owned()
}

/// `a` followed by `b`.
pub fn cat(a: &str, b: &str) -> (r: String)
    ensures
        r@ == a@ + b@,
{
    let mut r = a.to_owned();
    r.append(b);
    r
}

/// `str::split` with a single-character separator, as views. Like the standard
/// library, an empty input gives one empty piece and two adjacent separators give an
/// empty piece between them.
pub open spec fn split_on(s: Seq<char>, sep: char) -> Seq<Seq<char>>
    decreases s.len(),
{
    if s.len() == 0 {
        seq![Seq::<char>::empty()]
    } else {
        let rest = split_on(s.drop_last(), sep);
        if s.last() == sep {
            rest.push(Seq::<char>::empty())
        } else {
            rest.update(rest.len() - 1, rest.last().push(s.last()))
        }
    }
}

proof fn lemma_split_on_nonempty(s: Seq<char>, sep: char)
    ensures
        split_on(s, sep).len() >= 1,
    decreases s.len(),
{
    if s.len() > 0 {
        lemma_split_on_nonempty(s.drop_last(), sep);
    }
}

/// The views of a sequence of string slices.
pub open spec fn str_views(v: Seq<&str>) -> Seq<Seq<char>> {
    v.map_values(|x: &str| x@)
}

/// The views of a sequence of owned strings.
pub open spec fn string_views(v: Seq<String>) -> Seq<Seq<char>> {
    v.map_values(|x: String| x@)
}

/// `str::split(sep)`, collected.
pub fn split<'a>(s: &'a str, sep: char) -> (r: Vec<&'a str>)
    ensures
        str_views(r@) == split_on(s@, sep),
{
    let n = s.unicode_len();
    let mut done: Vec<&'a str> = Vec::new();
    let mut start: usize = 0;
    let mut i: usize = 0;
    assert(s@.subrange(0, 0) =~= Seq::<char>::empty());
    assert(str_views(done@).push(s@.subrange(0, 0)) =~= split_on(s@.subrange(0, 0), sep));
    while i < n
        invariant
            start <= i <= n,
            n == s@.len(),
            split_on(s@.subrange(0, i as int), sep) == str_views(done@).push(
                s@.subrange(start as int, i as int),
            ),
        decreases n - i,
    {
        let ghost before = s@.subrange(0, i as int);
        let ghost after = s@.subrange(0, i as int + 1);
        assert(after.drop_last() =~= before);
        proof {
            lemma_split_on_nonempty(before, sep);
        }
        if s.get_char(i) == sep {
            let piece = s.substring_char(start, i);
            let ghost prev = done@;
            done.push(piece);
            assert(str_views(done@) =~= str_views(prev).push(piece@));
            i = i + 1;
            start = i;
            assert(s@.subrange(start as int, i as int) =~= Seq::<char>::empty());
        } else {
            assert(s@.subrange(start as int, i as int + 1) =~= s@.subrange(
                start as int,
                i as int,
            ).push(s@[i as int]));
            i = i + 1;
        }
    }
    assert(s@.subrange(0, n as int) =~= s@);
    let last = s.substring_char(start, n);
    let ghost prev = done@;
    done.push(last);
    assert(str_views(done@) =~= str_views(prev).push(last@));
    done
}

/// `k` is the first position of `c` in `s`.
pub open spec fn first_at(s: Seq<char>, c: char, k: int) -> bool {
    &&& 0 <= k < s.len()
    &&& s[k] == c
    &&& forall|j: int| 0 <= j < k ==> s[j] != c
}

/// `str::split_once` with a single-character separator, as views.
pub open spec fn split_once_on(s: Seq<char>, c: char) -> Option<(Seq<char>, Seq<char>)> {
    if exists|k: int| first_at(s, c, k) {
        let k = choose|k: int| first_at(s, c, k);
        Some((s.take(k), s.skip(k + 1)))
    } else {
        None
    }
}

/// `str::split_once(c)`.
pub fn split_once<'a>(s: &'a str, c: char) -> (r: Option<(&'a str, &'a str)>)
    ensures
        match r {
            Some((a, b)) => split_once_on(s@, c) == Some((a@, b@)),
            None => split_once_on(s@, c) is None,
        },
{
    let n = s.unicode_len();
    let mut i: usize = 0;
    while i < n
        invariant
            i <= n,
            n == s@.len(),
            forall|j: int| 0 <= j < i ==> s@[j] != c,
        decreases n - i,
    {
        if s.get_char(i) == c {
            assert(first_at(s@, c, i as int));
            assert((choose|k: int| first_at(s@, c, k)) == i as int) by {
                let k = choose|k: int| first_at(s@, c, k);
                if k < i as int {
                    assert(s@[k] != c);
                } else if k > i as int {
                    assert(s@[i as int] != c);
                }
            }
            let a = s.substring_char(0, i);
            let b = s.substring_char(i + 1, n);
            assert(a@ =~= s@.take(i as int));
            assert(b@ =~= s@.skip(i as int + 1));
            return Some((a, b));
        }
        i = i + 1;
    }
    None
}

/// `parts` joined with `sep` between consecutive items (`[T]::join`).
pub open spec fn joined(parts: Seq<Seq<char>>, sep: Seq<char>) -> Seq<char>
    decreases parts.len(),
{
    if parts.len() == 0 {
        Seq::<char>::empty()
    } else if parts.len() == 1 {
        parts[0]
    } else {
        joined(parts.drop_last(), sep) + sep + parts.last()
    }
}

/// `[String]::join(sep)`.
pub fn join(parts: &Vec<String>, sep: &str) -> (r: String)
    ensures
        r@ == joined(string_views(parts@), sep@),
{
    let mut r = String::new();
    let n = parts.len();
    let mut i: usize = 0;
    while i < n
        invariant
            i <= n,
            n == parts@.len(),
            r@ == joined(string_views(parts@.take(i as int)), sep@),
        decreases n - i,
    {
        if i != 0 {
            r.append(sep);
        }
        r.append(parts[i].as_str());
        assert(string_views(parts@.take(i as int + 1)).drop_last() =~= string_views(
            parts@.take(i as int),
        ));
        i = i + 1;
    }
    assert(parts@.take(n as int) =~= parts@);
    r
}

/// The decimal digit for `d < 10`.
pub open spec fn digit_char(d: nat) -> char {
    (48 + d) as char
}

/// The decimal rendering of `n`, as `Display` writes an unsigned integer.
pub open spec fn decimal(n: nat) -> Seq<char>
    decreases n,
{
    if n < 10 {
        seq![digit_char(n)]
    } else {
        decimal(n / 10).push(digit_char(n % 10))
    }
}

fn digit(d: u64) -> (r: &'static str)
    requires
        d < 10,
    ensures
        r@ == seq![digit_char(d as nat)],
{
    let digits = "0123456789";
    proof {
        reveal_strlit("0123456789");
    }
    let r = digits.substring_char(d as usize, d as usize + 1);
    assert(r@ =~= seq![digit_char(d as nat)]);
    r
}

/// The decimal rendering of `n` (`n.to_string()`).
pub fn decimal_string(n: u64) -> (r: String)
    ensures
        r@ == decimal(n as nat),
    decreases n,
{
    if n < 10 {
        owned(digit(n))
    } else {
        let mut r = decimal_string(n / 10);
        r.append(digit(n % 10));
        r
    }
}


/// Whether `s` is one of the strings in `v`.
pub fn contains_str(v: &Vec<String>, s: &str) -> (r: bool)
    ensures
        r == string_views(v@).contains(s@),
{
    let n = v.len();
    let mut i: usize = 0;
    while i < n
        invariant
            i <= n,
            n == v@.len(),
            forall|j: int| 0 <= j < i ==> v@[j]@ != s@,
        decreases n - i,
    {
        if str_eq(v[i].as_str(), s) {
            assert(string_views(v@)[i as int] == s@);
            return true;
        }
        i = i + 1;
    }
    assert forall|j: int| 0 <= j < string_views(v@).len() implies string_views(v@)[j] != s@ by {
        assert(string_views(v@)[j] == v@[j]@);
    }
    false
}

/// A copy of a list of strings.
pub fn copy_strings(v: &Vec<String>) -> (r: Vec<String>)
    ensures
        string_views(r@) == string_views(v@),
{
    let n = v.len();
    let mut r: Vec<String> = Vec::new();
    let mut i: usize = 0;
    while i < n
        invariant
            i <= n,
            n == v@.len(),
            string_views(r@) == string_views(v@.take(i as int)),
        decreases n - i,
    {
        let ghost prev = r@;
        r.push(v[i].clone());
        assert(string_views(r@) =~= string_views(v@.take(i as int + 1))) by {
            assert(string_views(r@) =~= string_views(prev).push(v@[i as int]@));
        }
        i = i + 1;
    }
    assert(v@.take(n as int) =~= v@);
    r
}

} // verus!
