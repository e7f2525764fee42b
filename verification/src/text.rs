//! Text as sequences of characters: trimming, splitting, searching and number
//! formatting, each with an exact contract over `Seq<char>`.

use vstd::prelude::*;

verus! {

/// `String::push`: appends one character.
pub assume_specification[ std::string::String::push ](s: &mut std::string::String, c: char)
    ensures
        final(s)@ == old(s)@.push(c),
;

/// The characters with the Unicode `White_Space` property.
pub open spec fn is_space(c: char) -> bool {
    let u = c as u32;
    ||| 9 <= u <= 13
    ||| u == 0x20
    ||| u == 0x85
    ||| u == 0xA0
    ||| u == 0x1680
    ||| 0x2000 <= u <= 0x200A
    ||| u == 0x2028
    ||| u == 0x2029
    ||| u == 0x202F
    ||| u == 0x205F
    ||| u == 0x3000
}

pub open spec fn is_digit(c: char) -> bool {
    '0' <= c <= '9'
}

/// ASCII lower case of one character; every other character is kept.
pub open spec fn lower_char(c: char) -> char {
    if 'A' <= c <= 'Z' {
        ((c as u32 + 32) as u8) as char
    } else {
        c
    }
}

pub open spec fn lower(s: Seq<char>) -> Seq<char> {
    s.map_values(|c: char| lower_char(c))
}

pub open spec fn trim_start(s: Seq<char>) -> Seq<char>
    decreases s.len(),
{
    if s.len() > 0 && is_space(s[0]) {
        trim_start(s.skip(1))
    } else {
        s
    }
}

pub open spec fn trim_end(s: Seq<char>) -> Seq<char>
    decreases s.len(),
{
    if s.len() > 0 && is_space(s.last()) {
        trim_end(s.drop_last())
    } else {
        s
    }
}

/// The text without the whitespace at either end.
pub open spec fn trim(s: Seq<char>) -> Seq<char> {
    trim_end(trim_start(s))
}

/// `p` stands in `s` at position `i`.
pub open spec fn occurs_at(s: Seq<char>, p: Seq<char>, i: int) -> bool {
    0 <= i && i + p.len() <= s.len() && s.subrange(i, i + p.len()) == p
}

pub open spec fn starts_with(s: Seq<char>, p: Seq<char>) -> bool {
    occurs_at(s, p, 0)
}

pub open spec fn ends_with(s: Seq<char>, p: Seq<char>) -> bool {
    occurs_at(s, p, s.len() - p.len())
}

/// Where `p` first stands in `s` at or behind `from`.
pub open spec fn find(s: Seq<char>, p: Seq<char>, from: int) -> Option<int>
    decreases s.len() + 1 - from,
{
    if from + p.len() > s.len() {
        None
    } else if occurs_at(s, p, from) {
        Some(from)
    } else {
        find(s, p, from + 1)
    }
}

pub open spec fn contains(s: Seq<char>, p: Seq<char>) -> bool {
    exists|i: int| occurs_at(s, p, i)
}

/// The pieces of `s` between the occurrences of `sep`, never empty.
pub open spec fn split(s: Seq<char>, sep: char) -> Seq<Seq<char>>
    decreases s.len(),
{
    if s.len() == 0 {
        seq![s]
    } else {
        let rest = split(s.drop_last(), sep);
        if s.last() == sep {
            rest.push(Seq::empty())
        } else {
            rest.drop_last().push(rest.last().push(s.last()))
        }
    }
}

/// The views of a list of strings.
pub open spec fn texts(v: Seq<String>) -> Seq<Seq<char>> {
    v.map_values(|s: String| s@)
}

pub fn space(c: char) -> (r: bool)
    ensures
        r == is_space(c),
{
    let u: u32 = c as u32;
    (9 <= u && u <= 13) || u == 0x20 || u == 0x85 || u == 0xA0 || u == 0x1680 || (0x2000 <= u && u
        <= 0x200A) || u == 0x2028 || u == 0x2029 || u == 0x202F || u == 0x205F || u == 0x3000
}

/// The characters of `s`.
pub fn chars(s: &str) -> (r: Vec<char>)
    ensures
        r@ == s@,
{
    let mut v: Vec<char> = Vec::new();
    for c in it: s.chars()
        invariant
            it.seq() == s@,
            v@ == s@.take(it.index()),
    {
        v.push(c);
        assert(s@.take(it.index() + 1) =~= s@.take(it.index()).push(s@[it.index()]));
    }
    assert(s@.take(s@.len() as int) =~= s@);
    v
}

/// The text from position `from` up to `to`.
pub fn slice(v: &Vec<char>, from: usize, to: usize) -> (r: String)
    requires
        from <= to <= v.len(),
    ensures
        r@ == v@.subrange(from as int, to as int),
{
    let mut s = String::new();
    let mut i: usize = from;
    assert(s@ =~= v@.subrange(from as int, from as int));
    while i < to
        invariant
            from <= i <= to <= v.len(),
            s@ == v@.subrange(from as int, i as int),
        decreases to - i,
    {
        s.push(v[i]);
        assert(v@.subrange(from as int, i + 1) =~= v@.subrange(from as int, i as int).push(
            v@[i as int],
        ));
        i += 1;
    }
    s
}

/// Whether two texts are equal.
pub fn same(a: &str, b: &str) -> (r: bool)
    ensures
        r == (a@ == b@),
{
    let x = chars(a);
    let y = chars(b);
    if x.len() != y.len() {
        return false;
    }
    let mut i: usize = 0;
    while i < x.len()
        invariant
            i <= x.len() == y.len(),
            x@ == a@,
            y@ == b@,
            x@.take(i as int) =~= y@.take(i as int),
        decreases x.len() - i,
    {
        if x[i] != y[i] {
            assert(a@[i as int] != b@[i as int]);
            return false;
        }
        i += 1;
    }
    assert(x@.take(i as int) =~= x@);
    assert(y@.take(i as int) =~= y@);
    true
}

pub fn digit(c: char) -> (r: bool)
    ensures
        r == is_digit(c),
{
    '0' <= c && c <= '9'
}

/// Whether `p` stands in `s` at `i`.
pub fn at(s: &Vec<char>, p: &Vec<char>, i: usize) -> (r: bool)
    ensures
        r == occurs_at(s@, p@, i as int),
{
    if p.len() > s.len() || i > s.len() - p.len() {
        return false;
    }
    let mut k: usize = 0;
    while k < p.len()
        invariant
            k <= p.len() <= s.len(),
            i <= s.len() - p.len(),
            s@.subrange(i as int, i + k) =~= p@.take(k as int),
        decreases p.len() - k,
    {
        if s[i + k] != p[k] {
            assert(s@.subrange(i as int, i + p.len())[k as int] != p@[k as int]);
            return false;
        }
        k += 1;
    }
    assert(p@.take(k as int) =~= p@);
    true
}

/// Where `p` first stands in `s` at or behind `from`.
pub fn find_from(s: &Vec<char>, p: &Vec<char>, from: usize) -> (r: Option<usize>)
    requires
        from <= s.len(),
    ensures
        match r {
            Some(i) => find(s@, p@, from as int) == Some(i as int) && from <= i && i + p.len()
                <= s.len() && occurs_at(s@, p@, i as int) && (forall|j: int|
                from <= j < i ==> !occurs_at(s@, p@, j)),
            None => find(s@, p@, from as int) is None && (forall|j: int|
                from <= j ==> !occurs_at(s@, p@, j)),
        },
{
    let mut i: usize = from;
    while i <= s.len() && p.len() <= s.len() - i
        invariant
            from <= i <= s.len() + 1,
            find(s@, p@, from as int) == find(s@, p@, i as int),
            forall|j: int| from <= j < i ==> !occurs_at(s@, p@, j),
        decreases s.len() + 1 - i,
    {
        if at(s, p, i) {
            return Some(i);
        }
        if i == s.len() {
            assert(s@.subrange(i as int, i + p.len()) =~= p@);
        }
        i += 1;
    }
    None
}

/// What `find` returns: the first occurrence, or none where there is none.
pub proof fn lemma_find(s: Seq<char>, p: Seq<char>, from: int)
    requires
        0 <= from,
    ensures
        match find(s, p, from) {
            Some(i) => from <= i && occurs_at(s, p, i) && (forall|j: int|
                from <= j < i ==> !occurs_at(s, p, j)),
            None => forall|j: int| from <= j ==> !occurs_at(s, p, j),
        },
    decreases s.len() + 1 - from,
{
    if from + p.len() <= s.len() && !occurs_at(s, p, from) {
        lemma_find(s, p, from + 1);
    }
}

/// Whether `s` begins with `p`.
pub fn has_prefix(s: &str, p: &str) -> (r: bool)
    ensures
        r == starts_with(s@, p@),
{
    at(&chars(s), &chars(p), 0)
}

/// Whether `s` ends with `p`.
pub fn has_suffix(s: &str, p: &str) -> (r: bool)
    ensures
        r == ends_with(s@, p@),
{
    let v = chars(s);
    let q = chars(p);
    q.len() <= v.len() && at(&v, &q, v.len() - q.len())
}

/// Whether `p` stands anywhere in `s`.
pub fn has_text(s: &str, p: &str) -> (r: bool)
    ensures
        r == contains(s@, p@),
{
    find_from(&chars(s), &chars(p), 0).is_some()
}

/// What follows the prefix `p` of `s`, where `s` has it.
pub fn strip_prefix(s: &str, p: &str) -> (r: Option<String>)
    ensures
        match r {
            Some(t) => starts_with(s@, p@) && t@ == s@.skip(p@.len() as int),
            None => !starts_with(s@, p@),
        },
{
    let v = chars(s);
    let q = chars(p);
    if at(&v, &q, 0) {
        Some(slice(&v, q.len(), v.len()))
    } else {
        None
    }
}

/// The bounds of a text without the whitespace at either end.
pub fn trim_bounds(v: &Vec<char>) -> (r: (usize, usize))
    ensures
        r.0 <= r.1 <= v.len(),
        trim(v@) == v@.subrange(r.0 as int, r.1 as int),
{
    let mut a: usize = 0;
    assert(v@.skip(0) =~= v@);
    while a < v.len() && space(v[a])
        invariant
            a <= v.len(),
            trim_start(v@) == trim_start(v@.skip(a as int)),
        decreases v.len() - a,
    {
        assert(v@.skip(a as int).skip(1) =~= v@.skip(a + 1));
        a += 1;
    }
    let mut b: usize = v.len();
    assert(v@.skip(a as int) =~= v@.subrange(a as int, b as int));
    assert(trim_start(v@) == v@.subrange(a as int, b as int));
    while a < b && space(v[b - 1])
        invariant
            a <= b <= v.len(),
            trim(v@) == trim_end(v@.subrange(a as int, b as int)),
        decreases b - a,
    {
        assert(v@.subrange(a as int, b as int).drop_last() =~= v@.subrange(a as int, b - 1));
        b -= 1;
    }
    (a, b)
}

/// The text without the whitespace at either end.
pub fn trimmed(s: &str) -> (r: String)
    ensures
        r@ == trim(s@),
{
    let v = chars(s);
    let (a, b) = trim_bounds(&v);
    slice(&v, a, b)
}

/// ASCII lower case of one character.
pub fn lowered_char(c: char) -> (r: char)
    ensures
        r == lower_char(c),
{
    if 'A' <= c && c <= 'Z' {
        ((c as u32 + 32) as u8) as char
    } else {
        c
    }
}

/// The text in ASCII lower case.
pub fn lowered(s: &str) -> (r: String)
    ensures
        r@ == lower(s@),
{
    let v = chars(s);
    let mut out = String::new();
    let mut i: usize = 0;
    while i < v.len()
        invariant
            i <= v.len(),
            v@ == s@,
            out@ =~= lower(s@).take(i as int),
        decreases v.len() - i,
    {
        out.push(lowered_char(v[i]));
        i += 1;
    }
    assert(lower(s@).take(i as int) =~= lower(s@));
    out
}

/// The pieces of `s` between the occurrences of `sep`.
pub fn split_on(s: &str, sep: char) -> (r: Vec<String>)
    ensures
        texts(r@) == split(s@, sep),
        r.len() > 0,
{
    let v = chars(s);
    let mut done: Vec<String> = Vec::new();
    let mut cur = String::new();
    let mut i: usize = 0;
    assert(v@.take(0) =~= Seq::<char>::empty());
    assert(texts(done@).push(cur@) =~= split(v@.take(0), sep));
    while i < v.len()
        invariant
            i <= v.len(),
            texts(done@).push(cur@) == split(v@.take(i as int), sep),
        decreases v.len() - i,
    {
        let ghost before = texts(done@).push(cur@);
        assert(v@.take(i + 1).drop_last() =~= v@.take(i as int));
        if v[i] == sep {
            done.push(cur);
            cur = String::new();
            assert(texts(done@) =~= before);
            assert(texts(done@).push(cur@) =~= before.push(Seq::empty()));
        } else {
            cur.push(v[i]);
            assert(texts(done@).push(cur@) =~= before.drop_last().push(before.last().push(v@[i as int])));
        }
        i += 1;
    }
    assert(v@.take(i as int) =~= s@);
    let ghost all = texts(done@).push(cur@);
    done.push(cur);
    assert(texts(done@) =~= all);
    done
}

/// No character of `s` is `c`.
pub open spec fn free_of(s: Seq<char>, c: char) -> bool {
    forall|i: int| 0 <= i < s.len() ==> #[trigger] s[i] != c
}

/// No piece of a split text holds the separator.
pub proof fn lemma_split_free(s: Seq<char>, sep: char)
    ensures
        split(s, sep).len() > 0,
        forall|i: int| 0 <= i < split(s, sep).len() ==> free_of(#[trigger] split(s, sep)[i], sep),
    decreases s.len(),
{
    if s.len() > 0 {
        lemma_split_free(s.drop_last(), sep);
        let rest = split(s.drop_last(), sep);
        assert(free_of(rest.last(), sep));
        if s.last() != sep {
            let grown = rest.last().push(s.last());
            assert(free_of(grown, sep)) by {
                assert forall|i: int| 0 <= i < grown.len() implies #[trigger] grown[i] != sep by {
                    if i < rest.last().len() {
                        assert(grown[i] == rest.last()[i]);
                    }
                }
            }
        }
    }
}

/// Text without the separator extends the last piece.
pub proof fn lemma_split_append(a: Seq<char>, b: Seq<char>, sep: char)
    requires
        free_of(b, sep),
    ensures
        split(a, sep).len() > 0,
        split(a + b, sep) == split(a, sep).drop_last().push(split(a, sep).last() + b),
    decreases b.len(),
{
    lemma_split_free(a, sep);
    if b.len() == 0 {
        assert(a + b =~= a);
        assert(split(a, sep).last() + b =~= split(a, sep).last());
        assert(split(a, sep) =~= split(a, sep).drop_last().push(split(a, sep).last() + b));
    } else {
        assert forall|i: int| 0 <= i < b.drop_last().len() implies #[trigger] b.drop_last()[i]
            != sep by {
            assert(b.drop_last()[i] == b[i]);
        }
        lemma_split_append(a, b.drop_last(), sep);
        assert((a + b).drop_last() =~= a + b.drop_last());
        let rest = split(a + b.drop_last(), sep);
        assert((a + b).last() == b[b.len() - 1]);
        assert((split(a, sep).last() + b.drop_last()).push(b.last()) =~= split(a, sep).last() + b);
        assert(rest.drop_last() =~= split(a, sep).drop_last());
        assert(split(a + b, sep) =~= split(a, sep).drop_last().push(split(a, sep).last() + b));
    }
}

proof fn lemma_trim_drop_space(s: Seq<char>)
    requires
        s.len() > 0,
        is_space(s.last()),
    ensures
        trim(s.drop_last()) == trim(s),
    decreases s.len(),
{
    if s.len() == 1 {
        assert(s.skip(1) =~= Seq::empty());
        assert(s.drop_last() =~= Seq::empty());
        assert(s[0] == s.last());
    } else if is_space(s[0]) {
        assert(s.skip(1).last() == s.last());
        lemma_trim_drop_space(s.skip(1));
        assert(s.skip(1).drop_last() =~= s.drop_last().skip(1));
        assert(s.drop_last()[0] == s[0]);
    } else {
        assert(s.drop_last()[0] == s[0]);
    }
}

/// Whitespace at the end does not matter to `trim`.
pub proof fn lemma_trim_trim_end(s: Seq<char>)
    ensures
        trim(trim_end(s)) == trim(s),
    decreases s.len(),
{
    if s.len() > 0 && is_space(s.last()) {
        lemma_trim_trim_end(s.drop_last());
        lemma_trim_drop_space(s);
    }
}

/// A text that neither starts nor ends with whitespace is its own `trim`.
pub proof fn lemma_trim_id(s: Seq<char>)
    requires
        s.len() > 0 ==> !is_space(s[0]) && !is_space(s.last()),
    ensures
        trim(s) == s,
{
}

proof fn lemma_trim_end_last(s: Seq<char>)
    ensures
        trim_end(s).len() > 0 ==> !is_space(trim_end(s).last()),
        trim_end(s).len() <= s.len(),
        trim_end(s) == s.take(trim_end(s).len() as int),
    decreases s.len(),
{
    if s.len() > 0 && is_space(s.last()) {
        lemma_trim_end_last(s.drop_last());
        assert(s.drop_last().take(trim_end(s).len() as int) =~= s.take(trim_end(s).len() as int));
    } else {
        assert(s.take(s.len() as int) =~= s);
    }
}

proof fn lemma_trim_start_first(s: Seq<char>)
    ensures
        trim_start(s).len() > 0 ==> !is_space(trim_start(s)[0]),
    decreases s.len(),
{
    if s.len() > 0 && is_space(s[0]) {
        lemma_trim_start_first(s.skip(1));
    }
}

/// A trimmed text neither starts nor ends with whitespace.
pub proof fn lemma_trim_ends(s: Seq<char>)
    ensures
        trim(s).len() > 0 ==> !is_space(trim(s)[0]) && !is_space(trim(s).last()),
{
    lemma_trim_start_first(s);
    lemma_trim_end_last(trim_start(s));
}

/// The end of a text is trimmed alike behind any prefix, unless nothing is left of it.
pub proof fn lemma_trim_end_append(a: Seq<char>, b: Seq<char>)
    requires
        trim_end(b).len() > 0,
    ensures
        trim_end(a + b) == a + trim_end(b),
    decreases b.len(),
{
    if b.len() > 0 {
        assert((a + b).last() == b.last());
        if is_space(b.last()) {
            assert((a + b).drop_last() =~= a + b.drop_last());
            lemma_trim_end_append(a, b.drop_last());
        }
    }
}

/// `trim` leaves nothing exactly where `trim_end` leaves nothing.
pub proof fn lemma_trim_empty(s: Seq<char>)
    ensures
        trim_end(s).len() == 0 ==> trim(s).len() == 0,
{
    lemma_trim_trim_end(s);
    if trim_end(s).len() == 0 {
        assert(trim_end(s) =~= Seq::empty());
        assert(trim(Seq::<char>::empty()) =~= Seq::empty());
    }
}

/// Only the first occurrence is found.
pub proof fn lemma_find_is(s: Seq<char>, p: Seq<char>, from: int, i: int)
    requires
        0 <= from <= i,
        occurs_at(s, p, i),
        forall|j: int| from <= j < i ==> !occurs_at(s, p, j),
    ensures
        find(s, p, from) == Some(i),
{
    lemma_find(s, p, from);
}

/// The first `c` at or behind `from`, or the length of `s`.
pub open spec fn find_char(s: Seq<char>, c: char, from: int) -> int
    decreases s.len() - from,
{
    if from >= s.len() {
        s.len() as int
    } else if s[from] == c {
        from
    } else {
        find_char(s, c, from + 1)
    }
}

pub fn char_from(v: &Vec<char>, c: char, from: usize) -> (r: usize)
    requires
        from <= v.len(),
    ensures
        r == find_char(v@, c, from as int),
        from <= r <= v.len(),
        r < v.len() ==> v@[r as int] == c,
        forall|j: int| from <= j < r ==> v@[j] != c,
{
    let mut i: usize = from;
    while i < v.len() && v[i] != c
        invariant
            from <= i <= v.len(),
            find_char(v@, c, from as int) == find_char(v@, c, i as int),
            forall|j: int| from <= j < i ==> v@[j] != c,
        decreases v.len() - i,
    {
        i += 1;
    }
    i
}

/// Whether a list of texts holds `s`.
pub fn holds(v: &Vec<String>, s: &str) -> (r: bool)
    ensures
        r == texts(v@).contains(s@),
{
    let mut i: usize = 0;
    while i < v.len()
        invariant
            i <= v.len(),
            forall|j: int| 0 <= j < i ==> texts(v@)[j] != s@,
        decreases v.len() - i,
    {
        if same(v[i].as_str(), s) {
            assert(texts(v@)[i as int] == s@);
            return true;
        }
        i += 1;
    }
    false
}

/// The leading characters of `s` up to the first whitespace.
pub open spec fn until_space(s: Seq<char>) -> Seq<char>
    decreases s.len(),
{
    if s.len() == 0 || is_space(s[0]) {
        Seq::empty()
    } else {
        seq![s[0]] + until_space(s.skip(1))
    }
}

/// The first word of `s`; empty where it has none.
pub open spec fn first_word(s: Seq<char>) -> Seq<char> {
    until_space(trim_start(s))
}

/// The first word from position `from` on.
pub fn word_from(v: &Vec<char>, from: usize) -> (r: String)
    requires
        from <= v.len(),
    ensures
        r@ == first_word(v@.skip(from as int)),
{
    let mut a: usize = from;
    while a < v.len() && space(v[a])
        invariant
            from <= a <= v.len(),
            trim_start(v@.skip(from as int)) == trim_start(v@.skip(a as int)),
        decreases v.len() - a,
    {
        assert(v@.skip(a as int).skip(1) =~= v@.skip(a + 1));
        a += 1;
    }
    let ghost rest = v@.skip(a as int);
    let mut b: usize = a;
    assert(rest.skip(0) =~= rest);
    assert(v@.subrange(a as int, a as int) + until_space(rest) =~= until_space(rest));
    while b < v.len() && !space(v[b])
        invariant
            a <= b <= v.len(),
            v@.subrange(a as int, b as int) + until_space(v@.skip(b as int)) == until_space(
                v@.skip(a as int),
            ),
        decreases v.len() - b,
    {
        assert(v@.skip(b as int).skip(1) =~= v@.skip(b + 1));
        assert(v@.subrange(a as int, b + 1) + until_space(v@.skip(b + 1)) =~= v@.subrange(
            a as int,
            b as int,
        ) + until_space(v@.skip(b as int)));
        b += 1;
    }
    assert(v@.subrange(a as int, b as int) + until_space(v@.skip(b as int)) =~= v@.subrange(
        a as int,
        b as int,
    ));
    slice(v, a, b)
}

/// The text of an optional string.
pub open spec fn opt_text(o: Option<String>) -> Option<Seq<char>> {
    match o {
        Some(s) => Some(s@),
        None => None,
    }
}

/// Lexicographic order by code point, the order of `str`.
pub open spec fn precedes(a: Seq<char>, b: Seq<char>) -> bool
    decreases a.len(),
{
    if b.len() == 0 {
        false
    } else if a.len() == 0 {
        true
    } else if a[0] != b[0] {
        a[0] < b[0]
    } else {
        precedes(a.skip(1), b.skip(1))
    }
}

/// Of two different texts exactly one comes before the other.
pub proof fn lemma_precedes_strict(a: Seq<char>, b: Seq<char>)
    ensures
        precedes(a, b) ==> a != b && !precedes(b, a),
        a == b || precedes(a, b) || precedes(b, a),
    decreases a.len(),
{
    if a.len() == 0 || b.len() == 0 {
        if a.len() == 0 && b.len() == 0 {
            assert(a =~= b);
        }
    } else if a[0] == b[0] {
        lemma_precedes_strict(a.skip(1), b.skip(1));
        if a.skip(1) == b.skip(1) {
            assert(a =~= seq![a[0]] + a.skip(1));
            assert(b =~= seq![b[0]] + b.skip(1));
        }
    }
}

/// The order of texts is transitive.
pub proof fn lemma_precedes_trans(a: Seq<char>, b: Seq<char>, c: Seq<char>)
    requires
        precedes(a, b),
        precedes(b, c),
    ensures
        precedes(a, c),
    decreases a.len(),
{
    if a.len() > 0 && a[0] == b[0] && b[0] == c[0] {
        lemma_precedes_trans(a.skip(1), b.skip(1), c.skip(1));
    }
}

/// Whether `a` comes before `b`.
pub fn comes_before(a: &str, b: &str) -> (r: bool)
    ensures
        r == precedes(a@, b@),
{
    let x = chars(a);
    let y = chars(b);
    let mut i: usize = 0;
    assert(x@.skip(0) =~= x@);
    assert(y@.skip(0) =~= y@);
    while i < x.len() && i < y.len()
        invariant
            i <= x.len(),
            i <= y.len(),
            x@ == a@,
            y@ == b@,
            precedes(x@, y@) == precedes(x@.skip(i as int), y@.skip(i as int)),
        decreases x.len() - i,
    {
        assert(x@.skip(i as int)[0] == x@[i as int]);
        assert(y@.skip(i as int)[0] == y@[i as int]);
        if x[i] != y[i] {
            return x[i] < y[i];
        }
        assert(x@.skip(i as int).skip(1) =~= x@.skip(i + 1));
        assert(y@.skip(i as int).skip(1) =~= y@.skip(i + 1));
        i += 1;
    }
    i < y.len()
}

pub open spec fn digit_char(d: int) -> char {
    (d + 48) as u8 as char
}

/// Decimal notation of a natural number.
pub open spec fn decimal(n: nat) -> Seq<char>
    decreases n,
{
    if n < 10 {
        seq![digit_char(n as int)]
    } else {
        decimal(n / 10).push(digit_char((n % 10) as int))
    }
}

/// Decimal notation of an integer.
pub open spec fn decimal_int(n: int) -> Seq<char> {
    if n < 0 {
        seq!['-'] + decimal((-n) as nat)
    } else {
        decimal(n as nat)
    }
}

/// `s` with zeros in front, at least `width` long.
pub open spec fn zero_padded(s: Seq<char>, width: int) -> Seq<char>
    decreases width - s.len(),
{
    if s.len() >= width {
        s
    } else {
        zero_padded(seq!['0'] + s, width)
    }
}

pub fn decimal_of(n: u64) -> (r: String)
    ensures
        r@ == decimal(n as nat),
    decreases n,
{
    if n < 10 {
        let mut s = String::new();
        s.push((n as u8 + 48) as char);
        assert(s@ =~= decimal(n as nat));
        s
    } else {
        let mut s = decimal_of(n / 10);
        s.push(((n % 10) as u8 + 48) as char);
        s
    }
}

pub fn decimal_of_int(n: i64) -> (r: String)
    ensures
        r@ == decimal_int(n as int),
{
    if n < 0 {
        let size: u64 = if n == i64::MIN {
            0x8000_0000_0000_0000
        } else {
            (-n) as u64
        };
        let digits = decimal_of(size);
        let mut s = "-".to_owned();
        s.append(digits.as_str());
        proof {
            reveal_strlit("-");
        }
        assert(s@ =~= decimal_int(n as int));
        s
    } else {
        decimal_of(n as u64)
    }
}

/// `s` with zeros in front, at least `width` long.
pub fn padded(s: &str, width: usize) -> (r: String)
    ensures
        r@ == zero_padded(s@, width as int),
{
    let v = chars(s);
    let mut out = String::new();
    let mut n: usize = v.len();
    assert(out@ + s@ =~= s@);
    while n < width
        invariant
            n >= s@.len(),
            out@.len() == n - s@.len(),
            forall|i: int| 0 <= i < out@.len() ==> out@[i] == '0',
            zero_padded(s@, width as int) == zero_padded(out@ + s@, width as int),
        decreases width - n,
    {
        let ghost before = out@;
        out.push('0');
        assert(out@ + s@ =~= seq!['0'] + (before + s@));
        n += 1;
    }
    out.append(s);
    out
}

/// ASCII upper case of one character; every other character is kept.
pub open spec fn upper_char(c: char) -> char {
    if 'a' <= c <= 'z' {
        ((c as u32 - 32) as u8) as char
    } else {
        c
    }
}

pub open spec fn upper(s: Seq<char>) -> Seq<char> {
    s.map_values(|c: char| upper_char(c))
}

/// `s` with every `from` replaced by `to`.
pub open spec fn replace_char(s: Seq<char>, from: char, to: char) -> Seq<char> {
    s.map_values(
        |c: char|
            if c == from {
                to
            } else {
                c
            },
    )
}

/// The text in ASCII upper case.
pub fn uppered(s: &str) -> (r: String)
    ensures
        r@ == upper(s@),
{
    let v = chars(s);
    let mut out = String::new();
    let mut i: usize = 0;
    while i < v.len()
        invariant
            i <= v.len(),
            v@ == s@,
            out@ =~= upper(s@).take(i as int),
        decreases v.len() - i,
    {
        let c = v[i];
        out.push(
            if 'a' <= c && c <= 'z' {
                ((c as u32 - 32) as u8) as char
            } else {
                c
            },
        );
        i += 1;
    }
    assert(upper(s@).take(i as int) =~= upper(s@));
    out
}

/// `s` with every `from` replaced by `to`.
pub fn replaced_char(s: &str, from: char, to: char) -> (r: String)
    ensures
        r@ == replace_char(s@, from, to),
{
    let v = chars(s);
    let mut out = String::new();
    let mut i: usize = 0;
    while i < v.len()
        invariant
            i <= v.len(),
            v@ == s@,
            out@ =~= replace_char(s@, from, to).take(i as int),
        decreases v.len() - i,
    {
        let c = v[i];
        out.push(
            if c == from {
                to
            } else {
                c
            },
        );
        i += 1;
    }
    assert(replace_char(s@, from, to).take(i as int) =~= replace_char(s@, from, to));
    out
}

/// Whether `s` holds the character `c`.
pub fn has_char(s: &str, c: char) -> (r: bool)
    ensures
        r == s@.contains(c),
{
    let v = chars(s);
    let i = char_from(&v, c, 0);
    if i < v.len() {
        assert(s@[i as int] == c);
    }
    i < v.len()
}

/// The joined texts.
pub fn concat(a: &str, b: &str) -> (r: String)
    ensures
        r@ == a@ + b@,
{
    let mut s = a.to_owned();
    s.append(b);
    s
}

/// The text without the whitespace in front.
pub fn trimmed_start(s: &str) -> (r: String)
    ensures
        r@ == trim_start(s@),
{
    let v = chars(s);
    let mut a: usize = 0;
    assert(v@.skip(0) =~= v@);
    while a < v.len() && space(v[a])
        invariant
            a <= v.len(),
            trim_start(v@) == trim_start(v@.skip(a as int)),
        decreases v.len() - a,
    {
        assert(v@.skip(a as int).skip(1) =~= v@.skip(a + 1));
        a += 1;
    }
    assert(v@.skip(a as int) =~= v@.subrange(a as int, v.len() as int));
    slice(&v, a, v.len())
}

/// The text without the whitespace behind.
pub fn trimmed_end(s: &str) -> (r: String)
    ensures
        r@ == trim_end(s@),
{
    let v = chars(s);
    let mut b: usize = v.len();
    assert(v@.subrange(0, b as int) =~= v@);
    while b > 0 && space(v[b - 1])
        invariant
            b <= v.len(),
            trim_end(v@) == trim_end(v@.subrange(0, b as int)),
        decreases b,
    {
        assert(v@.subrange(0, b as int).drop_last() =~= v@.subrange(0, b - 1));
        b -= 1;
    }
    slice(&v, 0, b)
}

/// `s` with every `from` replaced by `to`, from left to right.
pub open spec fn replace_all(s: Seq<char>, from: Seq<char>, to: Seq<char>) -> Seq<char>
    decreases s.len(),
{
    if from.len() == 0 || s.len() < from.len() {
        s
    } else if starts_with(s, from) {
        to + replace_all(s.skip(from.len() as int), from, to)
    } else {
        seq![s[0]] + replace_all(s.skip(1), from, to)
    }
}

/// `s` with every `from` replaced by `to`, from left to right.
pub fn replaced(s: &str, from: &str, to: &str) -> (r: String)
    requires
        from@.len() > 0,
    ensures
        r@ == replace_all(s@, from@, to@),
{
    let v = chars(s);
    let p = chars(from);
    let mut out = String::new();
    let mut i: usize = 0;
    assert(v@.skip(0) =~= v@);
    assert(out@ + replace_all(s@, from@, to@) =~= replace_all(s@, from@, to@));
    while i < v.len() && p.len() <= v.len() - i
        invariant
            i <= v.len(),
            p@ == from@,
            p.len() > 0,
            out@ + replace_all(v@.skip(i as int), from@, to@) == replace_all(s@, from@, to@),
        decreases v.len() - i,
    {
        let ghost before = out@;
        let ghost rest = v@.skip(i as int);
        assert(occurs_at(v@, p@, i as int) == starts_with(rest, p@)) by {
            assert(rest.subrange(0, p@.len() as int) =~= v@.subrange(i as int, i + p@.len()));
        }
        if at(&v, &p, i) {
            out.append(to);
            assert(rest.skip(p@.len() as int) =~= v@.skip(i + p@.len()));
            assert(before + replace_all(rest, from@, to@) =~= out@ + replace_all(
                v@.skip(i + p@.len()),
                from@,
                to@,
            ));
            i += p.len();
        } else {
            out.push(v[i]);
            assert(rest.skip(1) =~= v@.skip(i + 1));
            assert(before + replace_all(rest, from@, to@) =~= out@ + replace_all(
                v@.skip(i + 1),
                from@,
                to@,
            ));
            i += 1;
        }
    }
    let tail = slice(&v, i, v.len());
    assert(tail@ =~= v@.skip(i as int));
    out.append(tail.as_str());
    out
}

/// `s` without every `c`.
pub open spec fn without_char(s: Seq<char>, c: char) -> Seq<char>
    decreases s.len(),
{
    if s.len() == 0 {
        s
    } else if s.last() == c {
        without_char(s.drop_last(), c)
    } else {
        without_char(s.drop_last(), c).push(s.last())
    }
}

/// `s` without every `c`.
pub fn removed_char(s: &str, c: char) -> (r: String)
    ensures
        r@ == without_char(s@, c),
{
    let v = chars(s);
    let mut out = String::new();
    let mut i: usize = 0;
    assert(out@ =~= without_char(v@.take(0), c));
    while i < v.len()
        invariant
            i <= v.len(),
            out@ == without_char(v@.take(i as int), c),
        decreases v.len() - i,
    {
        assert(v@.take(i + 1).drop_last() =~= v@.take(i as int));
        if v[i] != c {
            out.push(v[i]);
        }
        i += 1;
    }
    assert(v@.take(i as int) =~= s@);
    out
}

/// Different numbers are written differently.
pub proof fn lemma_decimal_injective(a: nat, b: nat)
    requires
        decimal(a) == decimal(b),
    ensures
        a == b,
    decreases a,
{
    lemma_decimal_len(a);
    lemma_decimal_len(b);
    let x = decimal(a);
    let y = decimal(b);
    assert(x.last() == digit_char((a % 10) as int));
    assert(y.last() == digit_char((b % 10) as int));
    assert(a % 10 == b % 10);
    if a >= 10 && b >= 10 {
        assert(x.drop_last() =~= decimal(a / 10));
        assert(y.drop_last() =~= decimal(b / 10));
        lemma_decimal_injective(a / 10, b / 10);
    } else if a >= 10 {
        lemma_decimal_len(a / 10);
    } else if b >= 10 {
        lemma_decimal_len(b / 10);
    }
}

/// A number has at least one digit.
pub proof fn lemma_decimal_len(n: nat)
    ensures
        decimal(n).len() > 0,
    decreases n,
{
    if n >= 10 {
        lemma_decimal_len(n / 10);
    }
}

/// A line without the carriage return at its end.
pub open spec fn without_return(s: Seq<char>) -> Seq<char> {
    if s.len() > 0 && s.last() == '\r' {
        s.drop_last()
    } else {
        s
    }
}

/// The lines of a text, without their line endings: a line feed, with or
/// without a carriage return before it.
pub open spec fn lines(s: Seq<char>) -> Seq<Seq<char>> {
    let pieces = split(s, '\n');
    let ended = pieces.drop_last().map_values(|l: Seq<char>| without_return(l));
    if pieces.last().len() == 0 {
        ended
    } else {
        ended.push(pieces.last())
    }
}

/// The lines of a text, without their line endings.
pub fn lines_of(s: &str) -> (r: Vec<String>)
    ensures
        texts(r@) == lines(s@),
{
    let mut pieces = split_on(s, '\n');
    let ghost all = texts(pieces@);
    let last = match pieces.pop() {
        Some(l) => l,
        None => String::new(),
    };
    assert(texts(pieces@) =~= all.drop_last());
    assert(last@ == all.last());
    let mut out: Vec<String> = Vec::new();
    let ghost ended = all.drop_last().map_values(|l: Seq<char>| without_return(l));
    let mut i: usize = 0;
    assert(texts(out@) =~= ended.take(0));
    while i < pieces.len()
        invariant
            i <= pieces.len(),
            ended.len() == pieces.len(),
            forall|j: int|
                0 <= j < pieces.len() ==> ended[j] == without_return(#[trigger] pieces@[j]@),
            texts(out@) == ended.take(i as int),
        decreases pieces.len() - i,
    {
        let ghost before = texts(out@);
        let v = chars(pieces[i].as_str());
        let n: usize = if v.len() > 0 && v[v.len() - 1] == '\r' {
            v.len() - 1
        } else {
            v.len()
        };
        let line = slice(&v, 0, n);
        assert(line@ =~= without_return(pieces@[i as int]@));
        let ghost l = line@;
        out.push(line);
        assert(texts(out@) =~= before.push(l));
        assert(ended.take(i + 1) =~= before.push(ended[i as int]));
        i += 1;
    }
    assert(ended.take(i as int) =~= ended);
    if !last.as_str().is_empty() {
        let ghost before = texts(out@);
        let ghost l = last@;
        out.push(last);
        assert(texts(out@) =~= before.push(l));
    }
    out
}

/// The texts with `sep` between them.
pub open spec fn join_texts(v: Seq<Seq<char>>, sep: Seq<char>) -> Seq<char>
    decreases v.len(),
{
    if v.len() == 0 {
        Seq::empty()
    } else if v.len() == 1 {
        v[0]
    } else {
        join_texts(v.drop_last(), sep) + sep + v.last()
    }
}

/// The first `n` texts, or all, with `sep` between them.
pub fn joined_texts(v: &Vec<String>, n: usize, sep: &str) -> (r: String)
    ensures
        r@ == join_texts(
            texts(v@).take(if n <= v.len() {
                n as int
            } else {
                v.len() as int
            }),
            sep@,
        ),
{
    let end: usize = if n <= v.len() {
        n
    } else {
        v.len()
    };
    let ghost all = texts(v@);
    let mut out = String::new();
    let mut i: usize = 0;
    assert(out@ =~= join_texts(all.take(0), sep@));
    while i < end
        invariant
            i <= end <= v.len(),
            all == texts(v@),
            out@ == join_texts(all.take(i as int), sep@),
        decreases end - i,
    {
        let ghost before = out@;
        assert(all.take(i + 1).drop_last() =~= all.take(i as int));
        if i > 0 {
            out.append(sep);
        }
        out.append(v[i].as_str());
        assert(out@ =~= join_texts(all.take(i + 1), sep@));
        i += 1;
    }
    out
}

/// Every line followed by a line feed.
pub open spec fn render(lines: Seq<Seq<char>>) -> Seq<char>
    decreases lines.len(),
{
    if lines.len() == 0 {
        Seq::empty()
    } else {
        render(lines.drop_last()) + lines.last().push('\n')
    }
}

/// Appends a line and a line feed.
pub fn push_line(out: &mut String, line: &str)
    ensures
        final(out)@ == old(out)@ + line@.push('\n'),
{
    out.append(line);
    out.push('\n');
    assert(out@ =~= old(out)@ + line@.push('\n'));
}

/// One line is rendered as the line and its end.
pub proof fn lemma_render_one(line: Seq<char>)
    ensures
        render(seq![line]) == line.push('\n'),
{
    reveal_with_fuel(render, 2);
    assert(seq![line].drop_last() =~= Seq::<Seq<char>>::empty());
    assert(render(seq![line]) =~= line.push('\n'));
}

/// Lines are rendered one after the other.
pub proof fn lemma_render_append(a: Seq<Seq<char>>, b: Seq<Seq<char>>)
    ensures
        render(a + b) == render(a) + render(b),
    decreases b.len(),
{
    if b.len() == 0 {
        assert(a + b =~= a);
        assert(render(a) + render(b) =~= render(a));
    } else {
        assert((a + b).drop_last() =~= a + b.drop_last());
        lemma_render_append(a, b.drop_last());
        assert(render(a + b) =~= render(a) + render(b));
    }
}

/// Splitting rendered lines gives the lines back, and the empty rest.
pub proof fn lemma_split_render(lines: Seq<Seq<char>>)
    requires
        forall|i: int| 0 <= i < lines.len() ==> free_of(#[trigger] lines[i], '\n'),
    ensures
        split(render(lines), '\n') == lines.push(Seq::empty()),
    decreases lines.len(),
{
    if lines.len() == 0 {
        assert(split(render(lines), '\n') =~= lines.push(Seq::empty()));
    } else {
        let init = lines.drop_last();
        assert forall|i: int| 0 <= i < init.len() implies free_of(#[trigger] init[i], '\n') by {
            assert(init[i] == lines[i]);
        }
        lemma_split_render(init);
        assert(free_of(lines[lines.len() - 1], '\n'));
        lemma_split_append(render(init), lines.last(), '\n');
        let s = render(init) + lines.last();
        assert(render(lines) =~= s.push('\n'));
        assert(s.push('\n').drop_last() =~= s);
        assert(Seq::<char>::empty() + lines.last() =~= lines.last());
        assert(init.push(Seq::empty()).drop_last() =~= init);
        assert(split(render(lines), '\n') =~= lines.push(Seq::empty()));
    }
}

/// The number that decimal digits stand for.
pub open spec fn number_of(digits: Seq<char>) -> int
    decreases digits.len(),
{
    if digits.len() == 0 {
        0
    } else {
        number_of(digits.drop_last()) * 10 + (digits.last() as u32 - 48)
    }
}

pub open spec fn only_digits(s: Seq<char>) -> bool {
    s.len() > 0 && forall|i: int| 0 <= i < s.len() ==> is_digit(#[trigger] s[i])
}

/// The integer that a text stands for: decimal digits with or without a sign,
/// in the range of `i64`.
pub open spec fn integer_in(s: Seq<char>) -> Option<i64> {
    let signed = s.len() > 0 && (s[0] == '-' || s[0] == '+');
    let digits = if signed {
        s.skip(1)
    } else {
        s
    };
    if only_digits(digits) {
        let n = if signed && s[0] == '-' {
            -number_of(digits)
        } else {
            number_of(digits)
        };
        if i64::MIN <= n <= i64::MAX {
            Some(n as i64)
        } else {
            None
        }
    } else {
        None
    }
}

proof fn lemma_number_grows(digits: Seq<char>, n: int)
    requires
        0 <= n <= digits.len(),
        forall|i: int| 0 <= i < digits.len() ==> is_digit(#[trigger] digits[i]),
    ensures
        0 <= number_of(digits.take(n)) <= number_of(digits),
    decreases digits.len(),
{
    if n == digits.len() {
        assert(digits.take(n) =~= digits);
        if n > 0 {
            let init = digits.drop_last();
            assert forall|i: int| 0 <= i < init.len() implies is_digit(#[trigger] init[i]) by {
                assert(init[i] == digits[i]);
            }
            lemma_number_grows(init, n - 1);
            assert(init.take(n - 1) =~= init);
            assert(is_digit(digits[n - 1]));
        }
    } else {
        let init = digits.drop_last();
        assert forall|i: int| 0 <= i < init.len() implies is_digit(#[trigger] init[i]) by {
            assert(init[i] == digits[i]);
        }
        lemma_number_grows(init, n);
        assert(init.take(n) =~= digits.take(n));
        assert(is_digit(digits[digits.len() - 1]));
    }
}

/// The integer that a text stands for.
pub fn parse_integer(s: &str) -> (r: Option<i64>)
    ensures
        r == integer_in(s@),
{
    let v = chars(s);
    let negative = v.len() > 0 && v[0] == '-';
    let start: usize = if v.len() > 0 && (v[0] == '-' || v[0] == '+') {
        1
    } else {
        0
    };
    let ghost digits = if start == 1 {
        s@.skip(1)
    } else {
        s@
    };
    if start == v.len() {
        return None;
    }
    let mut n: i128 = 0;
    let mut i: usize = start;
    assert(digits.take(0) =~= Seq::empty());
    while i < v.len()
        invariant
            start <= i <= v.len(),
            v@ == s@,
            start == (if s@.len() > 0 && (s@[0] == '-' || s@[0] == '+') {
                1int
            } else {
                0int
            }),
            digits == (if start == 1 {
                s@.skip(1)
            } else {
                s@
            }),
            digits.len() == v.len() - start,
            digits.len() > 0,
            n == number_of(digits.take(i - start)),
            0 <= n <= 0x8000_0000_0000_0000,
            forall|j: int| 0 <= j < i - start ==> is_digit(#[trigger] digits[j]),
        decreases v.len() - i,
    {
        let c = v[i];
        assert(digits[i - start] == c);
        if !digit(c) {
            return None;
        }
        let d: i128 = (c as u32 - 48) as i128;
        let ghost taken = digits.take(i + 1 - start);
        assert(taken.drop_last() =~= digits.take(i - start));
        n = n * 10 + d;
        if n > 0x8000_0000_0000_0000 {
            proof {
                if only_digits(digits) {
                    lemma_number_grows(digits, i + 1 - start);
                }
            }
            return None;
        }
        i += 1;
    }
    assert(digits.take(v.len() - start) =~= digits);
    if negative {
        Some((-n) as i64)
    } else if n <= i64::MAX as i128 {
        Some(n as i64)
    } else {
        None
    }
}

proof fn lemma_decimal_digits(n: nat)
    ensures
        only_digits(decimal(n)),
        number_of(decimal(n)) == n,
    decreases n,
{
    if n >= 10 {
        lemma_decimal_digits(n / 10);
        let d = decimal(n / 10);
        assert(decimal(n).drop_last() =~= d);
        assert forall|i: int| 0 <= i < decimal(n).len() implies is_digit(
            #[trigger] decimal(n)[i],
        ) by {
            if i < d.len() {
                assert(decimal(n)[i] == d[i]);
            }
        }
    } else {
        reveal_with_fuel(number_of, 2);
        assert(decimal(n).drop_last() =~= Seq::empty());
    }
}

/// A number that was written is read back.
pub proof fn lemma_integer_reads_back(n: i64)
    ensures
        integer_in(decimal_int(n as int)) == Some(n),
{
    let s = decimal_int(n as int);
    if n < 0 {
        lemma_decimal_digits((-n) as nat);
        assert(s.skip(1) =~= decimal((-n) as nat));
    } else {
        lemma_decimal_digits(n as nat);
        assert(is_digit(s[0]));
    }
}

} // verus!
