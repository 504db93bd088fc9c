//! Text as a sequence of characters: the vocabulary in which the rest of the
//! library states what its strings hold, and the executable operations on it.
use vstd::prelude::*;
use vstd::utf8::encode_utf8;

verus! {

// ---------------------------------------------------------------------------
// Characters
// ---------------------------------------------------------------------------

/// The characters with Unicode's `White_Space` property.
pub open spec fn is_space(c: char) -> bool {
    let n = c as u32;
    ||| 0x09 <= n <= 0x0d
    ||| n == 0x20
    ||| n == 0x85
    ||| n == 0xa0
    ||| n == 0x1680
    ||| 0x2000 <= n <= 0x200a
    ||| n == 0x2028
    ||| n == 0x2029
    ||| n == 0x202f
    ||| n == 0x205f
    ||| n == 0x3000
}

/// The characters of Unicode's general category `Cc`.
pub open spec fn is_control_char(c: char) -> bool {
    let n = c as u32;
    n <= 0x1f || 0x7f <= n <= 0x9f
}

/// The characters `0` to `9`.
pub open spec fn is_digit(c: char) -> bool {
    0x30 <= c as u32 <= 0x39
}

/// Whether `c` is white space.
pub fn is_whitespace(c: char) -> (r: bool)
    ensures
        r == is_space(c),
{
    let n: u32 = c as u32;
    (0x09 <= n && n <= 0x0d) || n == 0x20 || n == 0x85 || n == 0xa0 || n == 0x1680 || (0x2000 <= n
        && n <= 0x200a) || n == 0x2028 || n == 0x2029 || n == 0x202f || n == 0x205f || n == 0x3000
}

/// Whether `c` is a control character.
pub fn is_control(c: char) -> (r: bool)
    ensures
        r == is_control_char(c),
{
    let n: u32 = c as u32;
    n <= 0x1f || (0x7f <= n && n <= 0x9f)
}

/// Whether `c` is a decimal digit.
pub fn is_ascii_digit(c: char) -> (r: bool)
    ensures
        r == is_digit(c),
{
    let n: u32 = c as u32;
    0x30 <= n && n <= 0x39
}

// ---------------------------------------------------------------------------
// Between strings and character vectors
// ---------------------------------------------------------------------------

/// `String::push`: appends one character.
pub assume_specification[ String::push ](s: &mut String, c: char)
    ensures
        final(s)@ == old(s)@.push(c),
;

/// The texts that a sequence of strings holds.
pub open spec fn texts(v: Seq<String>) -> Seq<Seq<char>> {
    Seq::new(v.len(), |i: int| v[i]@)
}

/// The texts of a list that has grown by one string.
pub proof fn lemma_texts_push(v: Seq<String>, s: String)
    ensures
        texts(v.push(s)) == texts(v).push(s@),
{
    assert(texts(v.push(s)) =~= texts(v).push(s@));
}

/// The text of an optional string.
pub open spec fn opt_text(o: Option<String>) -> Option<Seq<char>> {
    match o {
        Some(s) => Some(s@),
        None => None,
    }
}

/// The text of an optional string slice.
pub open spec fn opt_str(o: Option<&str>) -> Option<Seq<char>> {
    match o {
        Some(s) => Some(s@),
        None => None,
    }
}

/// The characters of `s`.
pub fn chars_of(s: &str) -> (r: Vec<char>)
    ensures
        r@ == s@,
{
    let mut v: Vec<char> = Vec::new();
    for c in it: s.chars()
        invariant
            v@ == s@.take(it.index() as int),
            it.seq() == s@,
    {
        v.push(c);
    }
    v
}

/// The characters `from..to` of `cs` as a string.
pub fn substring(cs: &Vec<char>, from: usize, to: usize) -> (r: String)
    requires
        from <= to <= cs@.len(),
    ensures
        r@ == cs@.subrange(from as int, to as int),
{
    let mut out = String::new();
    let mut i: usize = from;
    while i < to
        invariant
            from <= i <= to <= cs@.len(),
            out@ == cs@.subrange(from as int, i as int),
        decreases to - i,
    {
        out.push(cs[i]);
        i += 1;
    }
    out
}

/// A copy of a list of strings.
pub fn copy_texts(v: &Vec<String>) -> (r: Vec<String>)
    ensures
        texts(r@) == texts(v@),
{
    let mut out: Vec<String> = Vec::new();
    let mut i: usize = 0;
    while i < v.len()
        invariant
            i <= v@.len(),
            texts(out@) == texts(v@).take(i as int),
        decreases v@.len() - i,
    {
        proof {
            lemma_texts_push(out@, v@[i as int]);
            assert(texts(v@).take(i as int + 1) =~= texts(v@).take(i as int).push(v@[i as int]@));
        }
        out.push(v[i].clone());
        i += 1;
    }
    assert(texts(v@).take(v@.len() as int) =~= texts(v@));
    out
}

/// An optional slice as an optional string.
pub fn own(o: Option<&str>) -> (r: Option<String>)
    ensures
        opt_text(r) == opt_str(o),
{
    match o {
        Some(s) => Some(s.to_owned()),
        None => None,
    }
}

/// An optional string as an optional slice.
pub fn borrow(o: &Option<String>) -> (r: Option<&str>)
    ensures
        opt_str(r) == opt_text(*o),
{
    match o {
        Some(s) => Some(s.as_str()),
        None => None,
    }
}

/// Whether two texts are the same.
pub fn same(a: &str, b: &str) -> (r: bool)
    ensures
        r == (a@ == b@),
{
    let x = chars_of(a);
    let y = chars_of(b);
    if x.len() != y.len() {
        return false;
    }
    let mut i: usize = 0;
    while i < x.len()
        invariant
            i <= x@.len(),
            x@.len() == y@.len(),
            x@ == a@,
            y@ == b@,
            x@.take(i as int) == y@.take(i as int),
        decreases x@.len() - i,
    {
        if x[i] != y[i] {
            assert(a@[i as int] != b@[i as int]);
            return false;
        }
        assert(x@.take(i as int + 1) =~= x@.take(i as int).push(x@[i as int]));
        assert(y@.take(i as int + 1) =~= y@.take(i as int).push(y@[i as int]));
        i += 1;
    }
    assert(x@.take(x@.len() as int) =~= x@);
    assert(y@.take(y@.len() as int) =~= y@);
    true
}

// ---------------------------------------------------------------------------
// Joining
// ---------------------------------------------------------------------------

/// `a` and then `b`.
pub fn cat2(a: &str, b: &str) -> (r: String)
    ensures
        r@ == a@ + b@,
{
    let mut s = a.to_owned();
    s.append(b);
    s
}

/// `a`, `b` and then `c`.
pub fn cat3(a: &str, b: &str, c: &str) -> (r: String)
    ensures
        r@ == a@ + b@ + c@,
{
    let mut s = cat2(a, b);
    s.append(c);
    s
}

/// `a`, `b`, `c` and then `d`.
pub fn cat4(a: &str, b: &str, c: &str, d: &str) -> (r: String)
    ensures
        r@ == a@ + b@ + c@ + d@,
{
    let mut s = cat3(a, b, c);
    s.append(d);
    s
}

/// `a`, `b`, `c`, `d` and then `e`.
pub fn cat5(a: &str, b: &str, c: &str, d: &str, e: &str) -> (r: String)
    ensures
        r@ == a@ + b@ + c@ + d@ + e@,
{
    let mut s = cat4(a, b, c, d);
    s.append(e);
    s
}

/// Appends a string to a list.
pub fn push_text(list: &mut Vec<String>, s: String)
    ensures
        texts(final(list)@) == texts(old(list)@).push(s@),
{
    proof {
        lemma_texts_push(list@, s);
    }
    list.push(s);
}

/// The texts of `parts`, one after the other, with `sep` between neighbours.
pub open spec fn joined(parts: Seq<Seq<char>>, sep: Seq<char>) -> Seq<char>
    decreases parts.len(),
{
    if parts.len() == 0 {
        Seq::empty()
    } else if parts.len() == 1 {
        parts[0]
    } else {
        joined(parts.drop_last(), sep) + sep + parts.last()
    }
}

/// Joins `parts` with `sep`.
pub fn join(parts: &Vec<String>, sep: &str) -> (r: String)
    ensures
        r@ == joined(texts(parts@), sep@),
{
    let mut out = String::new();
    let mut i: usize = 0;
    let ghost all = texts(parts@);
    while i < parts.len()
        invariant
            i <= parts@.len(),
            all == texts(parts@),
            out@ == joined(all.take(i as int), sep@),
        decreases parts@.len() - i,
    {
        if i > 0 {
            out.append(sep);
        }
        out.append(parts[i].as_str());
        proof {
            let next = all.take(i as int + 1);
            assert(next.drop_last() =~= all.take(i as int));
            assert(next.last() == parts@[i as int]@);
            assert(out@ =~= joined(next, sep@));
        }
        i += 1;
    }
    assert(all.take(parts@.len() as int) =~= all);
    out
}

// ---------------------------------------------------------------------------
// Searching
// ---------------------------------------------------------------------------

/// Whether `p` stands in `h` at position `i`.
pub open spec fn matches_at(h: Seq<char>, p: Seq<char>, i: int) -> bool {
    &&& 0 <= i
    &&& i + p.len() <= h.len()
    &&& h.subrange(i, i + p.len()) == p
}

/// Whether `p` stands anywhere in `h`.
pub open spec fn has_text(h: Seq<char>, p: Seq<char>) -> bool {
    exists|i: int| matches_at(h, p, i)
}

/// Whether `h` begins with `p`.
pub open spec fn begins_with(h: Seq<char>, p: Seq<char>) -> bool {
    matches_at(h, p, 0)
}

/// Whether `h` ends with `p`.
pub open spec fn finishes_with(h: Seq<char>, p: Seq<char>) -> bool {
    matches_at(h, p, h.len() - p.len())
}

/// The position of the first occurrence of `p` in `h`, or -1.
pub open spec fn find_text(h: Seq<char>, p: Seq<char>) -> int
    decreases h.len(),
{
    if matches_at(h, p, 0) {
        0
    } else if h.len() == 0 {
        -1
    } else {
        let r = find_text(h.drop_first(), p);
        if r < 0 {
            -1
        } else {
            r + 1
        }
    }
}

/// What `find_text` says: the occurrence it reports is one, and the first.
pub proof fn lemma_find(h: Seq<char>, p: Seq<char>)
    ensures
        find_text(h, p) >= 0 ==> matches_at(h, p, find_text(h, p)),
        find_text(h, p) < 0 ==> find_text(h, p) == -1,
        forall|j: int|
            #[trigger] matches_at(h, p, j) ==> 0 <= find_text(h, p) <= j,
    decreases h.len(),
{
    if !matches_at(h, p, 0) && h.len() > 0 {
        let t = h.drop_first();
        lemma_find(t, p);
        let r = find_text(t, p);
        if r >= 0 {
            assert(h.subrange(r + 1, r + 1 + p.len()) =~= t.subrange(r, r + p.len()));
        }
        assert forall|j: int| #[trigger] matches_at(h, p, j) implies 0 <= find_text(h, p) <= j by {
            assert(t.subrange(j - 1, j - 1 + p.len()) =~= h.subrange(j, j + p.len()));
            assert(matches_at(t, p, j - 1));
        }
    } else if !matches_at(h, p, 0) {
        assert forall|j: int| #[trigger] matches_at(h, p, j) implies 0 <= find_text(h, p) <= j by {
            assert(j == 0);
        }
    }
}

/// `p` stands in `h` exactly when a first occurrence is found.
pub proof fn lemma_has_text(h: Seq<char>, p: Seq<char>)
    ensures
        has_text(h, p) == (find_text(h, p) >= 0),
{
    lemma_find(h, p);
}

/// A text that is shorter than the pattern does not hold it.
proof fn lemma_find_short(h: Seq<char>, p: Seq<char>)
    requires
        h.len() < p.len(),
    ensures
        find_text(h, p) == -1,
    decreases h.len(),
{
    if h.len() > 0 {
        lemma_find_short(h.drop_first(), p);
    }
}

/// Whether `p` stands in `cs` at position `at`.
pub fn matches_here(cs: &Vec<char>, p: &Vec<char>, at: usize) -> (r: bool)
    ensures
        r == matches_at(cs@, p@, at as int),
{
    if at > cs.len() || p.len() > cs.len() - at {
        return false;
    }
    let mut i: usize = 0;
    while i < p.len()
        invariant
            i <= p@.len(),
            at + p@.len() <= cs@.len() <= usize::MAX,
            forall|k: int| 0 <= k < i ==> cs@[at + k] == p@[k],
        decreases p@.len() - i,
    {
        if cs[at + i] != p[i] {
            proof {
                if cs@.subrange(at as int, at + p@.len()) == p@ {
                    assert(cs@.subrange(at as int, at + p@.len())[i as int] == p@[i as int]);
                }
            }
            return false;
        }
        i += 1;
    }
    assert(cs@.subrange(at as int, at + p@.len()) =~= p@);
    true
}

/// The first occurrence of `p` in `cs` at or after `from`.
pub fn find_from(cs: &Vec<char>, p: &Vec<char>, from: usize) -> (r: Option<usize>)
    requires
        from <= cs@.len(),
    ensures
        match r {
            Some(k) => {
                &&& find_text(cs@.skip(from as int), p@) == k - from
                &&& from <= k
                &&& k + p@.len() <= cs@.len()
            },
            None => find_text(cs@.skip(from as int), p@) == -1,
        },
{
    let mut i: usize = from;
    while i <= cs.len() && p.len() <= cs.len() - i
        invariant
            from <= i <= cs@.len() + 1,
            i <= cs@.len() || find_text(cs@.skip(from as int), p@) == -1,
            i <= cs@.len() ==> find_text(cs@.skip(from as int), p@) == ({
                let rest = find_text(cs@.skip(i as int), p@);
                if rest < 0 {
                    -1
                } else {
                    rest + (i - from)
                }
            }),
        decreases cs@.len() + 1 - i,
    {
        let ghost here = cs@.skip(i as int);
        proof {
            assert(here.subrange(0, p@.len() as int) =~= cs@.subrange(i as int, i + p@.len()));
        }
        if matches_here(cs, p, i) {
            return Some(i);
        }
        if i == cs.len() {
            return None;
        }
        proof {
            assert(here.drop_first() =~= cs@.skip(i as int + 1));
        }
        i += 1;
    }
    proof {
        if i <= cs@.len() {
            lemma_find_short(cs@.skip(i as int), p@);
        }
    }
    None
}

/// The position of the first occurrence of `p` in `h`, counted in characters.
pub fn find(h: &str, p: &str) -> (r: Option<usize>)
    ensures
        match r {
            Some(k) => find_text(h@, p@) == k,
            None => find_text(h@, p@) == -1,
        },
{
    let cs = chars_of(h);
    let ps = chars_of(p);
    assert(cs@.skip(0) =~= cs@);
    find_from(&cs, &ps, 0)
}

/// Whether `p` stands in `h`.
pub fn contains(h: &str, p: &str) -> (r: bool)
    ensures
        r == has_text(h@, p@),
{
    proof {
        lemma_has_text(h@, p@);
    }
    find(h, p).is_some()
}

/// Whether `h` begins with `p`.
pub fn starts_with(h: &str, p: &str) -> (r: bool)
    ensures
        r == begins_with(h@, p@),
{
    let cs = chars_of(h);
    let ps = chars_of(p);
    matches_here(&cs, &ps, 0)
}

/// Whether `h` ends with `p`.
pub fn ends_with(h: &str, p: &str) -> (r: bool)
    ensures
        r == finishes_with(h@, p@),
{
    let cs = chars_of(h);
    let ps = chars_of(p);
    if ps.len() > cs.len() {
        return false;
    }
    matches_here(&cs, &ps, cs.len() - ps.len())
}

/// What follows the prefix `p` of `h`, where `h` begins with it.
pub fn strip_prefix(h: &str, p: &str) -> (r: Option<String>)
    ensures
        match r {
            Some(t) => begins_with(h@, p@) && t@ == h@.skip(p@.len() as int),
            None => !begins_with(h@, p@),
        },
{
    let cs = chars_of(h);
    let ps = chars_of(p);
    if matches_here(&cs, &ps, 0) {
        let n: usize = cs.len();
        assert(cs@.subrange(ps@.len() as int, n as int) =~= h@.skip(p@.len() as int));
        Some(substring(&cs, ps.len(), n))
    } else {
        None
    }
}

// ---------------------------------------------------------------------------
// Trimming
// ---------------------------------------------------------------------------

/// `s` without the white space at its beginning.
pub open spec fn trimmed_start(s: Seq<char>) -> Seq<char>
    decreases s.len(),
{
    if s.len() > 0 && is_space(s[0]) {
        trimmed_start(s.drop_first())
    } else {
        s
    }
}

/// `s` without the white space at its end.
pub open spec fn trimmed_end(s: Seq<char>) -> Seq<char>
    decreases s.len(),
{
    if s.len() > 0 && is_space(s.last()) {
        trimmed_end(s.drop_last())
    } else {
        s
    }
}

/// `s` without the white space around it.
pub open spec fn trimmed(s: Seq<char>) -> Seq<char> {
    trimmed_end(trimmed_start(s))
}

/// The first position at or after `from` that holds no white space.
pub fn skip_space(cs: &Vec<char>, from: usize) -> (r: usize)
    requires
        from <= cs@.len(),
    ensures
        from <= r <= cs@.len(),
        trimmed_start(cs@.skip(from as int)) == cs@.skip(r as int),
        r < cs@.len() ==> !is_space(cs@[r as int]),
{
    let mut i: usize = from;
    while i < cs.len() && is_whitespace(cs[i])
        invariant
            from <= i <= cs@.len(),
            trimmed_start(cs@.skip(from as int)) == trimmed_start(cs@.skip(i as int)),
        decreases cs@.len() - i,
    {
        assert(cs@.skip(i as int).drop_first() =~= cs@.skip(i as int + 1));
        i += 1;
    }
    i
}

/// `s` without the white space around it.
pub fn trim(s: &str) -> (r: String)
    ensures
        r@ == trimmed(s@),
{
    let cs = chars_of(s);
    assert(cs@.skip(0) =~= cs@);
    let start = skip_space(&cs, 0);
    let mut end: usize = cs.len();
    assert(cs@.subrange(start as int, end as int) =~= cs@.skip(start as int));
    while end > start && is_whitespace(cs[end - 1])
        invariant
            start <= end <= cs@.len(),
            trimmed(s@) == trimmed_end(cs@.subrange(start as int, end as int)),
        decreases end,
    {
        assert(cs@.subrange(start as int, end as int).drop_last() =~= cs@.subrange(
            start as int,
            end - 1,
        ));
        end -= 1;
    }
    substring(&cs, start, end)
}

/// `s` without the copies of `p` that it begins with.
pub open spec fn without_leading(s: Seq<char>, p: Seq<char>) -> Seq<char>
    decreases s.len(),
{
    if p.len() > 0 && begins_with(s, p) {
        without_leading(s.skip(p.len() as int), p)
    } else {
        s
    }
}

/// `s` without the copies of `p` that it ends with.
pub open spec fn without_trailing(s: Seq<char>, p: Seq<char>) -> Seq<char>
    decreases s.len(),
{
    if p.len() > 0 && finishes_with(s, p) {
        without_trailing(s.take(s.len() - p.len()), p)
    } else {
        s
    }
}

/// `s` without the copies of `p` that it begins with.
pub fn trim_start_matches(s: &str, p: &str) -> (r: String)
    requires
        p@.len() > 0,
    ensures
        r@ == without_leading(s@, p@),
{
    let cs = chars_of(s);
    let ps = chars_of(p);
    let n: usize = cs.len();
    let mut i: usize = 0;
    assert(cs@.skip(0) =~= cs@);
    while matches_here(&cs, &ps, i)
        invariant
            i <= n,
            n == cs@.len(),
            ps@ == p@,
            p@.len() > 0,
            without_leading(s@, p@) == without_leading(cs@.skip(i as int), p@),
        decreases n - i,
    {
        proof {
            let here = cs@.skip(i as int);
            assert(here.subrange(0, p@.len() as int) =~= cs@.subrange(i as int, i + p@.len()));
            assert(here.skip(p@.len() as int) =~= cs@.skip(i + p@.len()));
        }
        i += ps.len();
    }
    proof {
        let here = cs@.skip(i as int);
        if begins_with(here, p@) {
            assert(here.subrange(0, p@.len() as int) =~= cs@.subrange(i as int, i + p@.len()));
        }
        assert(cs@.subrange(i as int, n as int) =~= here);
    }
    substring(&cs, i, n)
}

/// `s` without the copies of `p` that it ends with.
pub fn trim_end_matches(s: &str, p: &str) -> (r: String)
    requires
        p@.len() > 0,
    ensures
        r@ == without_trailing(s@, p@),
{
    let cs = chars_of(s);
    let ps = chars_of(p);
    let mut n: usize = cs.len();
    assert(cs@.take(n as int) =~= cs@);
    while n >= ps.len() && matches_here(&cs, &ps, n - ps.len())
        invariant
            n <= cs@.len(),
            ps@ == p@,
            p@.len() > 0,
            without_trailing(s@, p@) == without_trailing(cs@.take(n as int), p@),
        decreases n,
    {
        proof {
            let here = cs@.take(n as int);
            let k = n - p@.len();
            assert(here.subrange(k, k + p@.len()) =~= cs@.subrange(k, k + p@.len()));
            assert(here.take(k) =~= cs@.take(k));
        }
        n -= ps.len();
    }
    proof {
        let here = cs@.take(n as int);
        let k = n - p@.len();
        if finishes_with(here, p@) {
            assert(here.subrange(k, k + p@.len()) =~= cs@.subrange(k, k + p@.len()));
        }
        assert(cs@.subrange(0, n as int) =~= here);
    }
    substring(&cs, 0, n)
}

// ---------------------------------------------------------------------------
// Splitting
// ---------------------------------------------------------------------------

/// The pieces of `s` between the occurrences of `sep`.
pub open spec fn pieces(s: Seq<char>, sep: Seq<char>) -> Seq<Seq<char>>
    decreases s.len(),
{
    let n = find_text(s, sep);
    if sep.len() > 0 && 0 <= n && n + sep.len() <= s.len() {
        seq![s.take(n)] + pieces(s.skip(n + sep.len()), sep)
    } else {
        seq![s]
    }
}

/// Splits `s` at every occurrence of `sep`.
pub fn split(s: &str, sep: &str) -> (r: Vec<String>)
    requires
        sep@.len() > 0,
    ensures
        texts(r@) == pieces(s@, sep@),
{
    let cs = chars_of(s);
    let ps = chars_of(sep);
    let n: usize = cs.len();
    let mut out: Vec<String> = Vec::new();
    let mut i: usize = 0;
    assert(cs@.skip(0) =~= cs@);
    assert(texts(out@) + pieces(cs@, sep@) =~= pieces(cs@, sep@));
    loop
        invariant
            i <= n,
            n == cs@.len(),
            ps@ == sep@,
            cs@ == s@,
            sep@.len() > 0,
            texts(out@) + pieces(cs@.skip(i as int), sep@) == pieces(s@, sep@),
        decreases n - i,
    {
        let ghost here = cs@.skip(i as int);
        match find_from(&cs, &ps, i) {
            Some(k) => {
                let piece = substring(&cs, i, k);
                proof {
                    lemma_texts_push(out@, piece);
                    assert(piece@ =~= here.take(k - i));
                    assert(here.skip(k - i + sep@.len()) =~= cs@.skip(k + sep@.len()));
                    assert(texts(out@).push(piece@) + pieces(cs@.skip(k + sep@.len()), sep@)
                        =~= texts(out@) + pieces(here, sep@));
                }
                out.push(piece);
                i = k + ps.len();
            },
            None => {
                let piece = substring(&cs, i, n);
                proof {
                    lemma_texts_push(out@, piece);
                    assert(piece@ =~= here);
                    assert(texts(out@).push(piece@) =~= texts(out@) + pieces(here, sep@));
                }
                out.push(piece);
                return out;
            },
        }
    }
}

/// `line` without a carriage return at its end.
pub open spec fn without_return(line: Seq<char>) -> Seq<char> {
    if line.len() > 0 && line.last() == '\r' {
        line.drop_last()
    } else {
        line
    }
}

/// The lines of `s`: a line ends with a line feed, or with a carriage return
/// and a line feed, and the last one needs no ending.
pub open spec fn lines_of(s: Seq<char>) -> Seq<Seq<char>>
    decreases s.len(),
{
    let n = find_text(s, seq!['\n']);
    if s.len() == 0 {
        Seq::empty()
    } else if 0 <= n < s.len() {
        seq![without_return(s.take(n))] + lines_of(s.skip(n + 1))
    } else {
        seq![s]
    }
}

/// The lines of `s`.
pub fn lines(s: &str) -> (r: Vec<String>)
    ensures
        texts(r@) == lines_of(s@),
{
    let cs = chars_of(s);
    let mut feed: Vec<char> = Vec::new();
    feed.push('\n');
    assert(feed@ =~= seq!['\n']);
    let n: usize = cs.len();
    let mut out: Vec<String> = Vec::new();
    let mut i: usize = 0;
    assert(cs@.skip(0) =~= cs@);
    assert(texts(out@) + lines_of(cs@) =~= lines_of(cs@));
    while i < n
        invariant
            i <= n,
            n == cs@.len(),
            cs@ == s@,
            feed@ == seq!['\n'],
            texts(out@) + lines_of(cs@.skip(i as int)) == lines_of(s@),
        decreases n - i,
    {
        let ghost here = cs@.skip(i as int);
        match find_from(&cs, &feed, i) {
            Some(k) => {
                let end: usize = if k > i && cs[k - 1] == '\r' {
                    k - 1
                } else {
                    k
                };
                let line = substring(&cs, i, end);
                proof {
                    lemma_texts_push(out@, line);
                    let raw = here.take(k - i);
                    assert(line@ =~= without_return(raw));
                    assert(here.skip(k - i + 1) =~= cs@.skip(k + 1));
                    assert(texts(out@).push(line@) + lines_of(cs@.skip(k + 1)) =~= texts(out@)
                        + lines_of(here));
                }
                out.push(line);
                i = k + 1;
            },
            None => {
                let line = substring(&cs, i, n);
                proof {
                    lemma_texts_push(out@, line);
                    assert(line@ =~= here);
                    assert(texts(out@).push(line@) =~= texts(out@) + lines_of(here));
                }
                out.push(line);
                return out;
            },
        }
    }
    assert(cs@.skip(n as int) =~= Seq::<char>::empty());
    assert(texts(out@) + lines_of(cs@.skip(n as int)) =~= texts(out@));
    out
}

/// The position of the first white space in `s`, or the length of `s`.
pub open spec fn word_end(s: Seq<char>) -> int
    decreases s.len(),
{
    if s.len() == 0 || is_space(s[0]) {
        0
    } else {
        1 + word_end(s.drop_first())
    }
}

/// The maximal stretches of `s` without white space.
pub open spec fn words_of(s: Seq<char>) -> Seq<Seq<char>>
    decreases s.len(),
{
    let t = trimmed_start(s);
    let n = word_end(t);
    if 0 < n <= t.len() <= s.len() {
        seq![t.take(n)] + words_of(t.skip(n))
    } else {
        Seq::empty()
    }
}

/// The words of `s`.
pub fn split_whitespace(s: &str) -> (r: Vec<String>)
    ensures
        texts(r@) == words_of(s@),
{
    let cs = chars_of(s);
    let n: usize = cs.len();
    let mut out: Vec<String> = Vec::new();
    let mut i: usize = 0;
    assert(cs@.skip(0) =~= cs@);
    assert(texts(out@) + words_of(cs@) =~= words_of(cs@));
    loop
        invariant
            i <= n,
            n == cs@.len(),
            cs@ == s@,
            texts(out@) + words_of(cs@.skip(i as int)) == words_of(s@),
        decreases n - i,
    {
        let start = skip_space(&cs, i);
        let ghost here = cs@.skip(start as int);
        if start == n {
            assert(words_of(cs@.skip(i as int)) =~= Seq::empty());
            assert(texts(out@) + words_of(cs@.skip(i as int)) =~= texts(out@));
            return out;
        }
        let mut k: usize = start;
        while k < n && !is_whitespace(cs[k])
            invariant
                start <= k <= n,
                n == cs@.len(),
                here == cs@.skip(start as int),
                word_end(here) == (k - start) + word_end(cs@.skip(k as int)),
            decreases n - k,
        {
            assert(cs@.skip(k as int).drop_first() =~= cs@.skip(k as int + 1));
            k += 1;
        }
        let word = substring(&cs, start, k);
        proof {
            lemma_texts_push(out@, word);
            assert(word_end(here) == k - start);
            assert(!is_space(here[0]));
            assert(word@ =~= here.take(k - start));
            assert(here.skip(k - start) =~= cs@.skip(k as int));
            assert(texts(out@).push(word@) + words_of(cs@.skip(k as int)) =~= texts(out@)
                + words_of(cs@.skip(i as int)));
        }
        out.push(word);
        i = k;
    }
}

// ---------------------------------------------------------------------------
// Counting, cutting and replacing
// ---------------------------------------------------------------------------

/// How often `p` stands in `s`, counting from the left and without overlaps.
pub open spec fn occurrences(s: Seq<char>, p: Seq<char>) -> nat {
    (pieces(s, p).len() - 1) as nat
}

/// A text has at least one piece, and no more than it has characters and one.
pub proof fn lemma_pieces_len(s: Seq<char>, sep: Seq<char>)
    ensures
        1 <= pieces(s, sep).len() <= s.len() + 1,
    decreases s.len(),
{
    let n = find_text(s, sep);
    if sep.len() > 0 && 0 <= n && n + sep.len() <= s.len() {
        lemma_pieces_len(s.skip(n + sep.len()), sep);
    }
}

/// How often `p` stands in `s` without overlaps.
pub fn count_matches(s: &str, p: &str) -> (r: usize)
    requires
        p@.len() > 0,
    ensures
        r == occurrences(s@, p@),
{
    let parts = split(s, p);
    proof {
        lemma_pieces_len(s@, p@);
        assert(texts(parts@).len() == parts@.len());
    }
    parts.len() - 1
}

/// The first `n` characters of `s`, or all of them.
pub open spec fn first_chars(s: Seq<char>, n: nat) -> Seq<char> {
    if n < s.len() {
        s.take(n as int)
    } else {
        s
    }
}

/// The first `max_chars` characters of `text`.
pub fn truncate_chars(text: &str, max_chars: usize) -> (r: String)
    ensures
        r@ == first_chars(text@, max_chars as nat),
{
    let cs = chars_of(text);
    let n: usize = if max_chars < cs.len() {
        max_chars
    } else {
        cs.len()
    };
    assert(cs@.subrange(0, n as int) =~= first_chars(text@, max_chars as nat));
    substring(&cs, 0, n)
}

/// `s` with every character replaced by what `f` gives for it.
pub open spec fn replaced(s: Seq<char>, f: spec_fn(char) -> Seq<char>) -> Seq<char>
    decreases s.len(),
{
    if s.len() == 0 {
        Seq::empty()
    } else {
        replaced(s.drop_last(), f) + f(s.last())
    }
}

/// Replacing in a concatenation is replacing in its parts.
pub proof fn lemma_replaced_concat(a: Seq<char>, b: Seq<char>, f: spec_fn(char) -> Seq<char>)
    ensures
        replaced(a + b, f) == replaced(a, f) + replaced(b, f),
    decreases b.len(),
{
    if b.len() == 0 {
        assert(a + b =~= a);
    } else {
        lemma_replaced_concat(a, b.drop_last(), f);
        assert((a + b).drop_last() =~= a + b.drop_last());
    }
}

/// The last piece of `s` behind the separators that `sep` holds of.
pub open spec fn after_last(s: Seq<char>, sep: spec_fn(char) -> bool) -> Seq<char>
    decreases s.len(),
{
    if s.len() == 0 || sep(s.last()) {
        Seq::empty()
    } else {
        after_last(s.drop_last(), sep).push(s.last())
    }
}

/// The lines of a list that are not blank, without the white space around
/// them.
pub open spec fn nonblank(list: Seq<Seq<char>>) -> Seq<Seq<char>>
    decreases list.len(),
{
    if list.len() == 0 {
        Seq::empty()
    } else {
        let rest = nonblank(list.drop_last());
        let t = trimmed(list.last());
        if t.len() == 0 {
            rest
        } else {
            rest.push(t)
        }
    }
}

/// The entries of `list` that are not blank, trimmed.
pub fn keep_nonblank(list: &Vec<String>) -> (r: Vec<String>)
    ensures
        texts(r@) == nonblank(texts(list@)),
{
    let mut out: Vec<String> = Vec::new();
    let ghost all = texts(list@);
    assert(texts(out@) =~= nonblank(all.take(0)));
    let mut i: usize = 0;
    while i < list.len()
        invariant
            i <= list@.len(),
            all == texts(list@),
            texts(out@) == nonblank(all.take(i as int)),
        decreases list@.len() - i,
    {
        let t = trim(list[i].as_str());
        proof {
            assert(all.take(i as int + 1).drop_last() =~= all.take(i as int));
        }
        if !t.as_str().is_empty() {
            push_text(&mut out, t);
        }
        i += 1;
    }
    assert(all.take(all.len() as int) =~= all);
    out
}

/// The lines of `s` that are not blank, trimmed.
pub fn nonblank_lines(s: &str) -> (r: Vec<String>)
    ensures
        texts(r@) == nonblank(lines_of(s@)),
{
    keep_nonblank(&lines(s))
}

/// The position of the last `c` in `s`, or -1.
pub open spec fn find_last(s: Seq<char>, c: char) -> int
    decreases s.len(),
{
    if s.len() == 0 {
        -1
    } else if s.last() == c {
        s.len() - 1
    } else {
        find_last(s.drop_last(), c)
    }
}

/// The position of the last `c` in `cs`.
pub fn rfind(cs: &Vec<char>, c: char) -> (r: Option<usize>)
    ensures
        match r {
            Some(k) => find_last(cs@, c) == k && k < cs@.len(),
            None => find_last(cs@, c) == -1,
        },
{
    let mut i: usize = cs.len();
    assert(cs@.take(cs@.len() as int) =~= cs@);
    while i > 0
        invariant
            i <= cs@.len(),
            find_last(cs@, c) == find_last(cs@.take(i as int), c),
        decreases i,
    {
        assert(cs@.take(i as int).drop_last() =~= cs@.take(i - 1));
        i -= 1;
        if cs[i] == c {
            return Some(i);
        }
    }
    None
}

/// The number of bytes that a text takes in UTF-8.
pub open spec fn byte_count(s: Seq<char>) -> nat {
    encode_utf8(s).len()
}

/// The number of bytes that a text takes in UTF-8.
pub fn byte_len(s: &str) -> (r: usize)
    ensures
        r == byte_count(s@),
{
    s.as_bytes().len()
}

/// The first of two optional texts that is there.
pub open spec fn either(a: Option<Seq<char>>, b: Option<Seq<char>>) -> Option<Seq<char>> {
    match a {
        Some(s) => Some(s),
        None => b,
    }
}

/// The first of two optional strings that is there.
pub fn first_text(a: Option<String>, b: Option<String>) -> (r: Option<String>)
    ensures
        opt_text(r) == either(opt_text(a), opt_text(b)),
{
    match a {
        Some(s) => Some(s),
        None => b,
    }
}

/// An optional text, or a default.
pub open spec fn text_or(text: Option<Seq<char>>, default: Seq<char>) -> Seq<char> {
    match text {
        Some(s) => s,
        None => default,
    }
}

/// An optional string, or a default.
pub fn string_or<'a>(text: &'a Option<String>, default: &'a str) -> (r: &'a str)
    ensures
        r@ == text_or(opt_text(*text), default@),
{
    match text {
        Some(s) => s.as_str(),
        None => default,
    }
}

/// A copy of an optional string.
pub fn copy_option(text: &Option<String>) -> (r: Option<String>)
    ensures
        opt_text(r) == opt_text(*text),
{
    match text {
        Some(s) => Some(s.clone()),
        None => None,
    }
}

// ---------------------------------------------------------------------------
// What is read back from text that was put together
// ---------------------------------------------------------------------------

/// Whether a text holds no line breaks.
pub open spec fn one_line(s: Seq<char>) -> bool {
    forall|i: int| 0 <= i < s.len() ==> (#[trigger] s[i]) != '\n' && s[i] != '\r'
}

/// Whether a text is one line with something on it and no white space around
/// it.
pub open spec fn plain(s: Seq<char>) -> bool {
    &&& one_line(s)
    &&& s.len() > 0
    &&& !is_space(s[0])
    &&& !is_space(s[s.len() - 1])
}

/// Trimming leaves a text alone that has no white space around it.
pub proof fn lemma_trimmed_plain(s: Seq<char>)
    requires
        s.len() > 0,
        !is_space(s[0]),
        !is_space(s[s.len() - 1]),
    ensures
        trimmed(s) == s,
{
    assert(s.last() == s[s.len() - 1]);
}

/// What trimming leaves of the end of a text.
proof fn lemma_trimmed_end_keeps(s: Seq<char>)
    ensures
        trimmed_end(s).len() <= s.len(),
        trimmed_end(s) == s.take(trimmed_end(s).len() as int),
        trimmed_end(s).len() > 0 ==> !is_space(trimmed_end(s)[trimmed_end(s).len() - 1]),
    decreases s.len(),
{
    if s.len() > 0 && is_space(s.last()) {
        lemma_trimmed_end_keeps(s.drop_last());
        let t = trimmed_end(s.drop_last());
        assert(s.drop_last().take(t.len() as int) =~= s.take(t.len() as int));
    } else {
        assert(s.take(s.len() as int) =~= s);
    }
}

/// The part of a text behind its beginning.
pub proof fn lemma_begins_with_concat(a: Seq<char>, b: Seq<char>)
    ensures
        begins_with(a + b, a),
        (a + b).skip(a.len() as int) == b,
{
    assert((a + b).subrange(0, a.len() as int) =~= a);
    assert((a + b).skip(a.len() as int) =~= b);
}

/// Texts that differ where both have a character do not begin alike.
pub proof fn lemma_begins_otherwise(h: Seq<char>, p: Seq<char>, i: int)
    requires
        0 <= i < h.len(),
        i < p.len(),
        h[i] != p[i],
    ensures
        !begins_with(h, p),
{
    if begins_with(h, p) {
        assert(h.subrange(0, p.len() as int)[i] == h[i]);
    }
}

/// Whether a character stands nowhere in a text.
pub open spec fn lacks(h: Seq<char>, c: char) -> bool {
    forall|k: int| 0 <= k < h.len() ==> (#[trigger] h[k]) != c
}

/// What neither of two texts has, they do not have together.
pub proof fn lemma_lacks_concat(a: Seq<char>, b: Seq<char>, c: char)
    requires
        lacks(a, c),
        lacks(b, c),
    ensures
        lacks(a + b, c),
{
    assert forall|k: int| 0 <= k < (a + b).len() implies (#[trigger] (a + b)[k]) != c by {
        if k < a.len() {
            assert((a + b)[k] == a[k]);
        } else {
            assert((a + b)[k] == b[k - a.len()]);
        }
    }
}

/// Lines that are put together are a line.
pub proof fn lemma_one_line_concat(a: Seq<char>, b: Seq<char>)
    requires
        one_line(a),
        one_line(b),
    ensures
        one_line(a + b),
{
    assert forall|k: int| 0 <= k < (a + b).len() implies (#[trigger] (a + b)[k]) != '\n' && (a
        + b)[k] != '\r' by {
        if k < a.len() {
            assert((a + b)[k] == a[k]);
        } else {
            assert((a + b)[k] == b[k - a.len()]);
        }
    }
}

/// A text does not hold another that has a character which it lacks.
pub proof fn lemma_lacks(h: Seq<char>, p: Seq<char>, i: int)
    requires
        0 <= i < p.len(),
        lacks(h, p[i]),
    ensures
        !has_text(h, p),
{
    if has_text(h, p) {
        let at = choose|at: int| matches_at(h, p, at);
        assert(h.subrange(at, at + p.len())[i] == h[at + i]);
    }
}

/// Where a text stands that was put between two others.
pub proof fn lemma_stands_between(a: Seq<char>, p: Seq<char>, b: Seq<char>)
    ensures
        matches_at(a + p + b, p, a.len() as int),
        has_text(a + p + b, p),
{
    assert((a + p + b).subrange(a.len() as int, (a.len() + p.len()) as int) =~= p);
    assert(matches_at(a + p + b, p, a.len() as int));
}

/// The first line feed of a text stands behind its first line.
proof fn lemma_first_feed(a: Seq<char>, rest: Seq<char>)
    requires
        lacks(a, '\n'),
    ensures
        find_text(a + seq!['\n'] + rest, seq!['\n']) == a.len(),
{
    let s = a + seq!['\n'] + rest;
    let feed = seq!['\n'];
    let n = a.len() as int;
    assert(s.subrange(n, n + 1) =~= feed);
    assert(matches_at(s, feed, n));
    lemma_find(s, feed);
    let at = find_text(s, feed);
    assert(0 <= at <= n);
    assert(s.subrange(at, at + 1)[0] == s[at]);
    assert(s[at] == '\n');
    if at < n {
        assert(s[at] == a[at]);
    }
}

/// What the search for a line feed says.
proof fn lemma_find_feed(s: Seq<char>)
    ensures
        ({
            let at = find_text(s, seq!['\n']);
            if at < 0 {
                lacks(s, '\n')
            } else {
                at < s.len() && s[at] == '\n' && lacks(s.take(at), '\n')
            }
        }),
{
    let feed = seq!['\n'];
    lemma_find(s, feed);
    let at = find_text(s, feed);
    if at >= 0 {
        assert(s.subrange(at, at + 1)[0] == s[at]);
    }
    assert forall|k: int| 0 <= k < s.len() && (at < 0 || k < at) implies (#[trigger] s[k])
        != '\n' by {
        if s[k] == '\n' {
            assert(s.subrange(k, k + 1) =~= feed);
            assert(matches_at(s, feed, k));
        }
    }
    if at >= 0 {
        assert forall|k: int| 0 <= k < s.take(at).len() implies (#[trigger] s.take(at)[k])
            != '\n' by {
            assert(s.take(at)[k] == s[k]);
        }
    }
}

/// The first line of a text that goes on, and the rest.
proof fn lemma_split_line(line: Seq<char>, rest: Seq<char>)
    requires
        lacks(line, '\n'),
    ensures
        lines_of(line + seq!['\n'] + rest) == seq![without_return(line)] + lines_of(rest),
{
    let s = line + seq!['\n'] + rest;
    let n = line.len() as int;
    lemma_first_feed(line, rest);
    assert(s.take(n) =~= line);
    assert(s.skip(n + 1) =~= rest);
    assert(lines_of(s) == seq![without_return(s.take(n))] + lines_of(s.skip(n + 1)));
}

/// The first line of a text that goes on.
pub proof fn lemma_lines_front(a: Seq<char>, rest: Seq<char>)
    requires
        one_line(a),
    ensures
        lines_of(a + seq!['\n'] + rest) == seq![a] + lines_of(rest),
{
    assert(lacks(a, '\n'));
    lemma_split_line(a, rest);
    if a.len() > 0 {
        assert(a.last() == a[a.len() - 1]);
    }
}

/// The lines of a text that is ended by a line feed, and of what follows.
pub proof fn lemma_lines_concat(a: Seq<char>, b: Seq<char>)
    ensures
        lines_of(a + seq!['\n'] + b) == lines_of(a + seq!['\n']) + lines_of(b),
    decreases a.len(),
{
    let feed = seq!['\n'];
    let none = Seq::<char>::empty();
    lemma_find_feed(a);
    let at = find_text(a, feed);
    if at < 0 {
        lemma_split_line(a, b);
        lemma_split_line(a, none);
        assert(a + feed + none =~= a + feed);
        assert(lines_of(none) =~= Seq::empty());
        assert(lines_of(a + feed) =~= seq![without_return(a)]);
    } else {
        let line = a.take(at);
        let later = a.skip(at + 1);
        lemma_split_line(line, later + feed + b);
        lemma_split_line(line, later + feed);
        assert(a + feed + b =~= line + feed + (later + feed + b));
        assert(a + feed =~= line + feed + (later + feed));
        lemma_lines_concat(later, b);
        assert(seq![without_return(line)] + (lines_of(later + feed) + lines_of(b)) =~= (seq![
            without_return(line),
        ] + lines_of(later + feed)) + lines_of(b));
    }
}

/// A line feed at the end of a text makes no line begin otherwise.
pub proof fn lemma_ended_lines(v: Seq<char>, p: Seq<char>)
    requires
        p.len() > 0,
        forall|i: int| 0 <= i < lines_of(v).len() ==> !begins_with(#[trigger] lines_of(v)[i], p),
    ensures
        forall|i: int|
            0 <= i < lines_of(v + seq!['\n']).len() ==> !begins_with(
                #[trigger] lines_of(v + seq!['\n'])[i],
                p,
            ),
    decreases v.len(),
{
    let feed = seq!['\n'];
    let none = Seq::<char>::empty();
    let ended = lines_of(v + feed);
    lemma_find_feed(v);
    let at = find_text(v, feed);
    if at < 0 {
        lemma_split_line(v, none);
        assert(v + feed + none =~= v + feed);
        assert(lines_of(none) =~= Seq::empty());
        assert(ended =~= seq![without_return(v)]);
        assert forall|i: int| 0 <= i < ended.len() implies !begins_with(#[trigger] ended[i], p) by {
            let line = without_return(v);
            if v.len() > 0 && begins_with(line, p) {
                assert(lines_of(v) =~= seq![v]);
                assert(v.subrange(0, p.len() as int) =~= line.subrange(0, p.len() as int));
                assert(begins_with(lines_of(v)[0], p));
            }
        }
    } else {
        let line = v.take(at);
        let later = v.skip(at + 1);
        lemma_split_line(line, later);
        lemma_split_line(line, later + feed);
        assert(v =~= line + feed + later);
        assert(v + feed =~= line + feed + (later + feed));
        assert forall|i: int| 0 <= i < lines_of(later).len() implies !begins_with(
            #[trigger] lines_of(later)[i],
            p,
        ) by {
            assert(lines_of(v)[i + 1] == lines_of(later)[i]);
        }
        lemma_ended_lines(later, p);
        assert forall|i: int| 0 <= i < ended.len() implies !begins_with(#[trigger] ended[i], p) by {
            if i == 0 {
                assert(lines_of(v)[0] == ended[0]);
            } else {
                assert(ended[i] == lines_of(later + feed)[i - 1]);
            }
        }
    }
}

proof fn lemma_trimmed_start_push(s: Seq<char>, c: char)
    requires
        is_space(c),
    ensures
        trimmed_start(s).len() > 0 ==> trimmed_start(s.push(c)) == trimmed_start(s).push(c),
        trimmed_start(s).len() == 0 ==> trimmed_start(s.push(c)).len() == 0,
    decreases s.len(),
{
    if s.len() > 0 && is_space(s[0]) {
        lemma_trimmed_start_push(s.drop_first(), c);
        assert(s.push(c).drop_first() =~= s.drop_first().push(c));
        assert(s.push(c)[0] == s[0]);
    } else if s.len() == 0 {
        let none = Seq::<char>::empty();
        assert(s.push(c)[0] == c);
        assert(s.push(c).drop_first() =~= none);
        assert(trimmed_start(none) == none);
    } else {
        assert(s.push(c)[0] == s[0]);
    }
}

/// White space at the end of a text is trimmed.
pub proof fn lemma_trimmed_push(s: Seq<char>, c: char)
    requires
        is_space(c),
    ensures
        trimmed(s.push(c)) == trimmed(s),
{
    lemma_trimmed_start_push(s, c);
    let t = trimmed_start(s);
    if t.len() > 0 {
        assert(t.push(c).drop_last() =~= t);
        assert(t.push(c).last() == c);
    } else {
        assert(trimmed_start(s.push(c)) =~= t);
    }
}

/// A carriage return at the end of a line is white space.
pub proof fn lemma_trimmed_return(line: Seq<char>)
    ensures
        trimmed(without_return(line)) == trimmed(line),
{
    if line.len() > 0 && line.last() == '\r' {
        lemma_trimmed_push(line.drop_last(), '\r');
        assert(line.drop_last().push('\r') =~= line);
    }
}

/// The lines of two lists that are not blank.
pub proof fn lemma_nonblank_concat(a: Seq<Seq<char>>, b: Seq<Seq<char>>)
    ensures
        nonblank(a + b) == nonblank(a) + nonblank(b),
    decreases b.len(),
{
    if b.len() == 0 {
        assert(a + b =~= a);
        assert(nonblank(b) =~= Seq::empty());
    } else {
        assert((a + b).drop_last() =~= a + b.drop_last());
        assert((a + b).last() == b.last());
        lemma_nonblank_concat(a, b.drop_last());
    }
    assert(nonblank(a + b) =~= nonblank(a) + nonblank(b));
}

proof fn lemma_nonblank_single(line: Seq<char>)
    ensures
        nonblank(seq![line]) == (if trimmed(line).len() == 0 {
            Seq::<Seq<char>>::empty()
        } else {
            seq![trimmed(line)]
        }),
{
    assert(seq![line].drop_last() =~= Seq::empty());
    assert(nonblank(seq![line].drop_last()) =~= Seq::empty());
}

/// A line feed at the end of a text adds nothing to its lines that are not
/// blank.
pub proof fn lemma_nonblank_ended(v: Seq<char>)
    ensures
        nonblank(lines_of(v + seq!['\n'])) == nonblank(lines_of(v)),
    decreases v.len(),
{
    let feed = seq!['\n'];
    let none = Seq::<char>::empty();
    lemma_find_feed(v);
    let at = find_text(v, feed);
    if at < 0 {
        lemma_split_line(v, none);
        assert(v + feed + none =~= v + feed);
        assert(lines_of(none) =~= Seq::empty());
        assert(lines_of(v + feed) =~= seq![without_return(v)]);
        lemma_trimmed_return(v);
        lemma_nonblank_single(v);
        lemma_nonblank_single(without_return(v));
        if v.len() == 0 {
            assert(lines_of(v) =~= Seq::empty());
            assert(v =~= none);
        } else {
            assert(lines_of(v) =~= seq![v]);
        }
    } else {
        let line = v.take(at);
        let later = v.skip(at + 1);
        lemma_split_line(line, later);
        lemma_split_line(line, later + feed);
        assert(v =~= line + feed + later);
        assert(v + feed =~= line + feed + (later + feed));
        lemma_nonblank_ended(later);
        lemma_nonblank_concat(seq![without_return(line)], lines_of(later));
        lemma_nonblank_concat(seq![without_return(line)], lines_of(later + feed));
    }
}

/// Plain lines are not blank.
pub proof fn lemma_nonblank_plain(list: Seq<Seq<char>>)
    requires
        forall|i: int| 0 <= i < list.len() ==> plain(#[trigger] list[i]),
    ensures
        nonblank(list) == list,
    decreases list.len(),
{
    if list.len() > 0 {
        let before = list.drop_last();
        assert forall|i: int| 0 <= i < before.len() implies plain(#[trigger] before[i]) by {
            assert(before[i] == list[i]);
        }
        lemma_nonblank_plain(before);
        assert(plain(list[list.len() - 1]));
        lemma_trimmed_plain(list.last());
        assert(before.push(list.last()) =~= list);
    }
    assert(nonblank(list) =~= list);
}

/// Lines that were joined are the lines of the text.
pub proof fn lemma_lines_joined(parts: Seq<Seq<char>>)
    requires
        forall|i: int|
            0 <= i < parts.len() ==> one_line(#[trigger] parts[i]) && parts[i].len() > 0,
    ensures
        lines_of(joined(parts, "\n"@)) == parts,
{
    if parts.len() == 0 {
        assert(joined(parts, "\n"@) =~= Seq::empty());
        assert(lines_of(joined(parts, "\n"@)) =~= parts);
    } else {
        let head = parts.drop_last();
        let tail = seq![parts.last()];
        assert(one_line(parts[parts.len() - 1]));
        assert forall|i: int| 0 <= i < head.len() implies one_line(#[trigger] head[i]) by {
            assert(head[i] == parts[i]);
        }
        lemma_joined_lines(head, tail);
        assert(joined(tail, "\n"@) == parts.last());
        lemma_single_line(parts.last());
        assert(head + tail =~= parts);
    }
}

/// Each of joined texts stands in what they were joined to.
pub proof fn lemma_joined_holds(parts: Seq<Seq<char>>, sep: Seq<char>, i: int)
    requires
        0 <= i < parts.len(),
    ensures
        has_text(joined(parts, sep), parts[i]),
    decreases parts.len(),
{
    let none = Seq::<char>::empty();
    if parts.len() == 1 {
        lemma_stands_between(none, parts[0], none);
        assert(none + parts[0] + none =~= joined(parts, sep));
    } else {
        let before = parts.drop_last();
        if i == parts.len() - 1 {
            lemma_stands_between(joined(before, sep) + sep, parts[i], none);
            assert(joined(before, sep) + sep + parts[i] + none =~= joined(parts, sep));
        } else {
            lemma_joined_holds(before, sep, i);
            assert(before[i] == parts[i]);
            lemma_still_holds(none, joined(before, sep), sep + parts.last(), parts[i]);
            assert(none + joined(before, sep) + (sep + parts.last()) =~= joined(parts, sep));
        }
    }
}

/// A text that stands in another stands in what that is put into.
pub proof fn lemma_still_holds(a: Seq<char>, h: Seq<char>, b: Seq<char>, p: Seq<char>)
    requires
        has_text(h, p),
    ensures
        has_text(a + h + b, p),
{
    let at = choose|at: int| matches_at(h, p, at);
    let s = a + h + b;
    let n = a.len() + at;
    assert(s.subrange(n, n + p.len()) =~= h.subrange(at, at + p.len()));
    assert(matches_at(s, p, n));
}

/// A text that stands in one that stands in another stands in that.
pub proof fn lemma_holds_deeper(h: Seq<char>, p: Seq<char>, q: Seq<char>)
    requires
        has_text(h, p),
        has_text(p, q),
    ensures
        has_text(h, q),
{
    let at = choose|at: int| matches_at(h, p, at);
    let inner = choose|inner: int| matches_at(p, q, inner);
    lemma_stands_deeper(h, p, at, q, inner);
    assert(matches_at(h, q, at + inner));
}

/// What stands between the same texts in the same text is the same.
pub proof fn lemma_cancel(a: Seq<char>, x: Seq<char>, y: Seq<char>, b: Seq<char>)
    requires
        a + x + b == a + y + b,
    ensures
        x == y,
{
    assert((a + x + b).len() == a.len() + x.len() + b.len());
    assert((a + y + b).len() == a.len() + y.len() + b.len());
    assert(x.len() == y.len());
    assert((a + x + b).subrange(a.len() as int, a.len() + x.len() as int) =~= x);
    assert((a + y + b).subrange(a.len() as int, a.len() + y.len() as int) =~= y);
}

/// The lines of a text without line breaks.
pub proof fn lemma_single_line(a: Seq<char>)
    requires
        one_line(a),
        a.len() > 0,
    ensures
        lines_of(a) == seq![a],
{
    let feed = seq!['\n'];
    lemma_find(a, feed);
    let at = find_text(a, feed);
    if at >= 0 {
        assert(a.subrange(at, at + 1)[0] == a[at]);
    }
}

/// The first of joined texts.
pub proof fn lemma_joined_front(parts: Seq<Seq<char>>, sep: Seq<char>)
    requires
        parts.len() >= 2,
    ensures
        joined(parts, sep) == parts[0] + sep + joined(parts.drop_first(), sep),
    decreases parts.len(),
{
    let rest = parts.drop_first();
    if parts.len() == 2 {
        assert(parts.drop_last().len() == 1);
        assert(joined(parts.drop_last(), sep) == parts[0]);
        assert(joined(rest, sep) == parts[1]);
    } else {
        lemma_joined_front(parts.drop_last(), sep);
        assert(parts.drop_last().drop_first() =~= rest.drop_last());
        assert(rest.last() == parts.last());
    }
    assert(joined(parts, sep) =~= parts[0] + sep + joined(rest, sep));
}

/// The lines of joined texts, of which the first are lines themselves.
pub proof fn lemma_joined_lines(head: Seq<Seq<char>>, tail: Seq<Seq<char>>)
    requires
        tail.len() > 0,
        forall|i: int| 0 <= i < head.len() ==> one_line(#[trigger] head[i]),
    ensures
        lines_of(joined(head + tail, "\n"@)) == head + lines_of(joined(tail, "\n"@)),
    decreases head.len(),
{
    reveal_strlit("\n");
    assert("\n"@ =~= seq!['\n']);
    if head.len() == 0 {
        assert(head + tail =~= tail);
        assert(head + lines_of(joined(tail, "\n"@)) =~= lines_of(joined(tail, "\n"@)));
    } else {
        let rest = head.drop_first();
        assert forall|i: int| 0 <= i < rest.len() implies one_line(#[trigger] rest[i]) by {
            assert(rest[i] == head[i + 1]);
        }
        lemma_joined_lines(rest, tail);
        lemma_joined_front(head + tail, "\n"@);
        assert((head + tail).drop_first() =~= rest + tail);
        lemma_lines_front(head[0], joined(rest + tail, "\n"@));
        assert(seq![head[0]] + (rest + lines_of(joined(tail, "\n"@))) =~= head + lines_of(
            joined(tail, "\n"@),
        ));
    }
}

// ---------------------------------------------------------------------------
// Texts that stand one behind the other
// ---------------------------------------------------------------------------

/// The texts of a list, one behind the other.
pub open spec fn concatenated(parts: Seq<Seq<char>>) -> Seq<char>
    decreases parts.len(),
{
    if parts.len() == 0 {
        Seq::empty()
    } else {
        concatenated(parts.drop_last()) + parts.last()
    }
}

/// Where a text of a list begins when they stand one behind the other.
pub open spec fn start_of(parts: Seq<Seq<char>>, i: int) -> int {
    concatenated(parts.take(i)).len() as int
}

/// A text of a list stands where it begins, and the next one begins behind it.
pub proof fn lemma_stands_in_order(parts: Seq<Seq<char>>, i: int)
    requires
        0 <= i < parts.len(),
    ensures
        0 <= start_of(parts, i),
        matches_at(concatenated(parts), parts[i], start_of(parts, i)),
        start_of(parts, i) + parts[i].len() == start_of(parts, i + 1),
    decreases parts.len(),
{
    let n = parts.len() - 1;
    let before = parts.drop_last();
    assert(parts.take(i + 1).drop_last() =~= parts.take(i));
    assert(parts.take(i + 1).last() == parts[i]);
    if i == n {
        assert(parts.take(i) =~= before);
        let none = Seq::<char>::empty();
        lemma_stands_between(concatenated(before), parts[i], none);
        assert(concatenated(before) + parts[i] + none =~= concatenated(parts));
    } else {
        lemma_stands_in_order(before, i);
        assert(before.take(i) =~= parts.take(i));
        assert(before[i] == parts[i]);
        lemma_stands_within(
            Seq::empty(),
            concatenated(before),
            parts.last(),
            parts[i],
            start_of(parts, i),
        );
        assert(Seq::<char>::empty() + concatenated(before) + parts.last() =~= concatenated(parts));
    }
}

/// Texts that come later in a list begin later.
pub proof fn lemma_starts_ascend(parts: Seq<Seq<char>>, i: int, j: int)
    requires
        0 <= i < j < parts.len(),
    ensures
        start_of(parts, i) + parts[i].len() <= start_of(parts, j),
    decreases j - i,
{
    lemma_stands_in_order(parts, i);
    if i + 1 < j {
        lemma_starts_ascend(parts, i + 1, j);
        lemma_stands_in_order(parts, i + 1);
    }
}

/// Where a text stands in one that was put between two others.
pub proof fn lemma_stands_within(
    a: Seq<char>,
    h: Seq<char>,
    b: Seq<char>,
    p: Seq<char>,
    at: int,
)
    requires
        matches_at(h, p, at),
    ensures
        matches_at(a + h + b, p, a.len() + at),
{
    let s = a + h + b;
    let n = a.len() + at;
    assert(s.subrange(n, n + p.len()) =~= h.subrange(at, at + p.len()));
}

/// Where a text stands in one that stands in another.
pub proof fn lemma_stands_deeper(h: Seq<char>, p: Seq<char>, at: int, q: Seq<char>, inner: int)
    requires
        matches_at(h, p, at),
        matches_at(p, q, inner),
    ensures
        matches_at(h, q, at + inner),
{
    let n = at + inner;
    assert(h.subrange(n, n + q.len()) =~= h.subrange(at, at + p.len()).subrange(
        inner,
        inner + q.len(),
    ));
}

/// Whether one text stands before another in a third.
pub open spec fn shows_in_order(h: Seq<char>, p: Seq<char>, q: Seq<char>) -> bool {
    exists|a: int, b: int|
        #![trigger matches_at(h, p, a), matches_at(h, q, b)]
        matches_at(h, p, a) && matches_at(h, q, b) && a + p.len() <= b
}

/// Texts that were joined stand in their order.
pub proof fn lemma_joined_in_order(parts: Seq<Seq<char>>, sep: Seq<char>, i: int, j: int)
    requires
        0 <= i < j < parts.len(),
    ensures
        shows_in_order(joined(parts, sep), parts[i], parts[j]),
    decreases parts.len(),
{
    let none = Seq::<char>::empty();
    let before = parts.drop_last();
    let front = joined(before, sep);
    let last = parts.last();
    let whole = joined(parts, sep);
    assert(whole == front + sep + last);
    assert(before[i] == parts[i]);
    assert(none + front + (sep + last) =~= whole);
    if j == parts.len() - 1 {
        lemma_joined_holds(before, sep, i);
        let a = choose|a: int| matches_at(front, parts[i], a);
        lemma_stands_within(none, front, sep + last, parts[i], a);
        lemma_stands_between(front + sep, last, none);
        assert(front + sep + last + none =~= whole);
        assert(matches_at(whole, parts[i], a));
        assert(matches_at(whole, parts[j], (front + sep).len() as int));
    } else {
        lemma_joined_in_order(before, sep, i, j);
        assert(before[j] == parts[j]);
        let (a, b) = choose|a: int, b: int|
            #![trigger matches_at(front, parts[i], a), matches_at(front, parts[j], b)]
            matches_at(front, parts[i], a) && matches_at(front, parts[j], b) && a + parts[i].len()
                <= b;
        lemma_stands_within(none, front, sep + last, parts[i], a);
        lemma_stands_within(none, front, sep + last, parts[j], b);
        assert(matches_at(whole, parts[i], a));
        assert(matches_at(whole, parts[j], b));
    }
}

/// Where an entry stands among those that are not blank.
pub proof fn lemma_nonblank_at(list: Seq<Seq<char>>, k: int)
    requires
        0 <= k < list.len(),
        trimmed(list[k]).len() > 0,
    ensures
        nonblank(list.take(k)).len() < nonblank(list).len(),
        nonblank(list)[nonblank(list.take(k)).len() as int] == trimmed(list[k]),
    decreases list.len(),
{
    if k == list.len() - 1 {
        assert(list.take(k) =~= list.drop_last());
    } else {
        lemma_nonblank_at(list.drop_last(), k);
        assert(list.drop_last().take(k) =~= list.take(k));
    }
}

/// Entries that are not blank keep their order.
pub proof fn lemma_nonblank_ascends(list: Seq<Seq<char>>, i: int, j: int)
    requires
        0 <= i < j < list.len(),
        trimmed(list[i]).len() > 0,
    ensures
        nonblank(list.take(i)).len() < nonblank(list.take(j)).len(),
{
    lemma_nonblank_at(list.take(j), i);
    assert(list.take(j).take(i) =~= list.take(i));
}

/// The first separator of a text stands behind its first piece.
pub proof fn lemma_first_separator(a: Seq<char>, sep: Seq<char>, rest: Seq<char>)
    requires
        sep.len() > 0,
        lacks(a, sep[0]),
    ensures
        find_text(a + sep + rest, sep) == a.len(),
{
    let s = a + sep + rest;
    lemma_stands_between(a, sep, rest);
    lemma_find(s, sep);
    let at = find_text(s, sep);
    assert(0 <= at <= a.len());
    assert(s.subrange(at, at + sep.len())[0] == s[at]);
    if at < a.len() {
        assert(s[at] == a[at]);
    }
}

/// Texts that were joined are the pieces between the separators, where none of
/// them has the character that a separator begins with.
pub proof fn lemma_pieces_joined(parts: Seq<Seq<char>>, sep: Seq<char>)
    requires
        parts.len() > 0,
        sep.len() > 0,
        forall|i: int| 0 <= i < parts.len() ==> lacks(#[trigger] parts[i], sep[0]),
    ensures
        pieces(joined(parts, sep), sep) == parts,
    decreases parts.len(),
{
    let s = joined(parts, sep);
    assert(lacks(parts[0], sep[0]));
    if parts.len() == 1 {
        lemma_lacks(s, sep, 0);
        lemma_has_text(s, sep);
        assert(pieces(s, sep) =~= parts);
    } else {
        let rest = parts.drop_first();
        let n = parts[0].len() as int;
        lemma_joined_front(parts, sep);
        lemma_first_separator(parts[0], sep, joined(rest, sep));
        assert(s.take(n) =~= parts[0]);
        assert(s.skip(n + sep.len()) =~= joined(rest, sep));
        assert forall|i: int| 0 <= i < rest.len() implies lacks(#[trigger] rest[i], sep[0]) by {
            assert(rest[i] == parts[i + 1]);
        }
        lemma_pieces_joined(rest, sep);
        assert(seq![parts[0]] + rest =~= parts);
    }
}

/// Texts that stand in order in a part of a text do so in the whole.
pub proof fn lemma_order_deeper(h: Seq<char>, p: Seq<char>, at: int, a: Seq<char>, b: Seq<char>)
    requires
        matches_at(h, p, at),
        shows_in_order(p, a, b),
    ensures
        shows_in_order(h, a, b),
{
    let (i, j) = choose|i: int, j: int|
        #![trigger matches_at(p, a, i), matches_at(p, b, j)]
        matches_at(p, a, i) && matches_at(p, b, j) && i + a.len() <= j;
    lemma_stands_deeper(h, p, at, a, i);
    lemma_stands_deeper(h, p, at, b, j);
    assert(matches_at(h, a, at + i));
    assert(matches_at(h, b, at + j));
}

/// What stands in texts that stand in order stands in that order too.
pub proof fn lemma_order_across(
    h: Seq<char>,
    p: Seq<char>,
    q: Seq<char>,
    a: Seq<char>,
    b: Seq<char>,
)
    requires
        shows_in_order(h, p, q),
        has_text(p, a),
        has_text(q, b),
    ensures
        shows_in_order(h, a, b),
{
    let (i, j) = choose|i: int, j: int|
        #![trigger matches_at(h, p, i), matches_at(h, q, j)]
        matches_at(h, p, i) && matches_at(h, q, j) && i + p.len() <= j;
    let k = choose|k: int| matches_at(p, a, k);
    let l = choose|l: int| matches_at(q, b, l);
    lemma_stands_deeper(h, p, i, a, k);
    lemma_stands_deeper(h, q, j, b, l);
    assert(matches_at(h, a, i + k));
    assert(matches_at(h, b, j + l));
}

/// Texts that follow each other stand in their order.
pub proof fn lemma_concatenated_in_order(parts: Seq<Seq<char>>, i: int, j: int)
    requires
        0 <= i < j < parts.len(),
    ensures
        shows_in_order(concatenated(parts), parts[i], parts[j]),
{
    lemma_stands_in_order(parts, i);
    lemma_stands_in_order(parts, j);
    lemma_starts_ascend(parts, i, j);
}

/// Whether a text has no blank line and no line feed at either end.
pub open spec fn without_gaps(s: Seq<char>) -> bool {
    &&& s.len() > 0
    &&& s[0] != '\n'
    &&& s[s.len() - 1] != '\n'
    &&& forall|k: int| 0 <= k && k + 1 < s.len() ==> !(#[trigger] s[k] == '\n' && s[k + 1] == '\n')
}

/// Lines that are not empty make a text without blank lines.
pub proof fn lemma_joined_without_gaps(lines: Seq<Seq<char>>)
    requires
        lines.len() > 0,
        forall|i: int| 0 <= i < lines.len() ==> plain(#[trigger] lines[i]),
    ensures
        without_gaps(joined(lines, "\n"@)),
        joined(lines, "\n"@)[0] == lines[0][0],
        joined(lines, "\n"@)[joined(lines, "\n"@).len() - 1] == lines.last()[lines.last().len() - 1],
    decreases lines.len(),
{
    reveal_strlit("\n");
    let s = joined(lines, "\n"@);
    let last = lines.last();
    assert(plain(lines[lines.len() - 1]));
    assert(plain(lines[0]));
    if lines.len() > 1 {
        let before = lines.drop_last();
        assert forall|i: int| 0 <= i < before.len() implies plain(#[trigger] before[i]) by {
            assert(before[i] == lines[i]);
        }
        lemma_joined_without_gaps(before);
        let front = joined(before, "\n"@);
        let n = front.len() as int;
        assert(s == front + "\n"@ + last);
        assert(before[0] == lines[0]);
        assert(s[0] == front[0]);
        assert(s[s.len() - 1] == last[last.len() - 1]);
        assert forall|k: int| 0 <= k && k + 1 < s.len() implies !(#[trigger] s[k] == '\n' && s[k
            + 1] == '\n') by {
            if k + 1 < n {
                assert(s[k] == front[k] && s[k + 1] == front[k + 1]);
            } else if k + 1 == n {
                assert(s[k] == front[k]);
            } else if k == n {
                assert(s[k + 1] == last[0]);
            } else {
                assert(s[k] == last[k - n - 1]);
            }
        }
    }
}

/// A text without blank lines is one piece.
pub proof fn lemma_one_piece(s: Seq<char>)
    requires
        without_gaps(s),
    ensures
        pieces(s, "\n\n"@) == seq![s],
{
    reveal_strlit("\n\n");
    let gap = "\n\n"@;
    lemma_has_text(s, gap);
    if has_text(s, gap) {
        let at = choose|at: int| matches_at(s, gap, at);
        assert(s.subrange(at, at + 2)[0] == s[at]);
        assert(s.subrange(at, at + 2)[1] == s[at + 1]);
    }
}

/// Three texts in a row, taken in two ways.
pub proof fn lemma_assoc(a: Seq<char>, b: Seq<char>, c: Seq<char>)
    ensures
        a + b + c == a + (b + c),
{
    assert(a + b + c =~= a + (b + c));
}

/// Where the end of a text stands.
pub proof fn lemma_end_stands(a: Seq<char>, b: Seq<char>)
    ensures
        matches_at(a + b, b, a.len() as int),
        has_text(a + b, b),
        finishes_with(a + b, b),
{
    let none = Seq::<char>::empty();
    lemma_stands_between(a, b, none);
    assert(a + b + none =~= a + b);
}

/// What stands in a text stands in it when it goes on.
pub proof fn lemma_front_holds(h: Seq<char>, b: Seq<char>, p: Seq<char>)
    requires
        has_text(h, p),
    ensures
        has_text(h + b, p),
{
    let none = Seq::<char>::empty();
    lemma_still_holds(none, h, b, p);
    assert(none + h + b =~= h + b);
}

/// Nothing is taken off the beginning of a text that begins otherwise.
pub proof fn lemma_no_lead(rest: Seq<char>, lead: Seq<char>)
    requires
        rest.len() > 0,
        lead.len() > 0,
        rest[0] != lead[0],
    ensures
        without_leading(rest, lead) == rest,
{
    lemma_begins_otherwise(rest, lead, 0);
}

/// What a text begins with is taken off once where what follows begins otherwise.
pub proof fn lemma_lead_taken(lead: Seq<char>, rest: Seq<char>)
    requires
        lead.len() > 0,
        rest.len() > 0,
        rest[0] != lead[0],
    ensures
        without_leading(lead + rest, lead) == rest,
{
    lemma_begins_with_concat(lead, rest);
    lemma_no_lead(rest, lead);
}

/// What a text ends with is taken off once where what comes before ends otherwise.
pub proof fn lemma_trail_taken(inner: Seq<char>, trail: Seq<char>)
    requires
        trail.len() > 0,
        inner.len() > 0,
        inner[inner.len() - 1] != trail[trail.len() - 1],
    ensures
        without_trailing(inner + trail, trail) == inner,
{
    lemma_end_stands(inner, trail);
    lemma_end_off(inner, trail);
    lemma_no_trail(inner, trail);
}

/// Nothing is taken off the end of a text that ends otherwise.
pub proof fn lemma_no_trail(inner: Seq<char>, trail: Seq<char>)
    requires
        trail.len() > 0,
        inner.len() > 0,
        inner[inner.len() - 1] != trail[trail.len() - 1],
    ensures
        without_trailing(inner, trail) == inner,
{
    if finishes_with(inner, trail) {
        let n = inner.len() - trail.len();
        assert(inner.subrange(n, n + trail.len())[trail.len() - 1] == inner[inner.len() - 1]);
    }
}

/// A text without its end.
pub proof fn lemma_end_off(inner: Seq<char>, trail: Seq<char>)
    ensures
        (inner + trail).take((inner + trail).len() - trail.len()) == inner,
{
    assert((inner + trail).take((inner + trail).len() - trail.len()) =~= inner);
}

/// Trimming takes white space away that stands around a text.
pub proof fn lemma_trimmed_around(before: char, text: Seq<char>, behind: char)
    requires
        is_space(before),
        is_space(behind),
        text.len() > 0,
        !is_space(text[0]),
        !is_space(text[text.len() - 1]),
    ensures
        trimmed(seq![before] + text + seq![behind]) == text,
{
    let front = seq![before] + text;
    assert(front + seq![behind] =~= front.push(behind));
    lemma_trimmed_push(front, behind);
    assert(front[0] == before);
    assert(front.drop_first() =~= text);
    assert(trimmed_start(front) == trimmed_start(text));
    lemma_trimmed_plain(text);
}

/// What is left of a text once it is trimmed stands in it.
pub proof fn lemma_trimmed_is_part(s: Seq<char>)
    ensures
        has_text(s, trimmed(s)),
{
    lemma_trimmed_start_is_end(s);
    let t = trimmed_start(s);
    lemma_trimmed_end_keeps(t);
    let n = s.len() - t.len();
    let u = trimmed(s);
    assert(s.subrange(n, n + u.len()) =~= u);
    assert(matches_at(s, u, n));
}

proof fn lemma_trimmed_start_is_end(s: Seq<char>)
    ensures
        trimmed_start(s).len() <= s.len(),
        trimmed_start(s) == s.skip(s.len() - trimmed_start(s).len()),
    decreases s.len(),
{
    if s.len() > 0 && is_space(s[0]) {
        let rest = s.drop_first();
        lemma_trimmed_start_is_end(rest);
        let t = trimmed_start(rest);
        assert(rest.skip(rest.len() - t.len()) =~= s.skip(s.len() - t.len()));
    } else {
        assert(s.skip(0) =~= s);
    }
}

/// Two texts that were joined one after the other stand together.
pub proof fn lemma_joined_pair(parts: Seq<Seq<char>>, sep: Seq<char>, i: int)
    requires
        0 <= i,
        i + 1 < parts.len(),
    ensures
        has_text(joined(parts, sep), parts[i] + sep + parts[i + 1]),
    decreases parts.len(),
{
    let before = parts.drop_last();
    let last = parts.last();
    let front = joined(before, sep);
    let pair = parts[i] + sep + parts[i + 1];
    assert(joined(parts, sep) == front + sep + last);
    assert(before[i] == parts[i]);
    if i + 1 < parts.len() - 1 {
        lemma_joined_pair(before, sep, i);
        assert(before[i + 1] == parts[i + 1]);
        lemma_front_holds(front, sep, pair);
        lemma_front_holds(front + sep, last, pair);
    } else if before.len() == 1 {
        let none = Seq::<char>::empty();
        assert(front == parts[i]);
        lemma_end_stands(none, pair);
        assert(none + pair =~= pair);
    } else {
        let head = joined(before.drop_last(), sep) + sep;
        assert(before.last() == parts[i]);
        assert(front == head + parts[i]);
        lemma_assoc(head, parts[i], sep);
        lemma_assoc(head, parts[i] + sep, last);
        lemma_end_stands(head, pair);
    }
}

} // verus!
