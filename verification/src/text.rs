//! Character-level text helpers shared by the rest of the library: decimal
//! rendering, ASCII case folding and conversions between `&str`, `Vec<char>`
//! and `String`.

use vstd::prelude::*;

verus! {

/// The ASCII digit for `d` (0..=9).
pub open spec fn digit_char(d: int) -> char {
    (48 + d) as char
}

/// Decimal digits of `n`, most significant first, without leading zeros.
pub open spec fn nat_digits(n: nat) -> Seq<char>
    decreases n,
{
    if n < 10 {
        seq![digit_char(n as int)]
    } else {
        nat_digits(n / 10).push(digit_char((n % 10) as int))
    }
}

/// Decimal rendering of an integer, with a leading `-` when negative
/// (what `Display` prints for Rust integers).
pub open spec fn int_text(i: int) -> Seq<char> {
    if i < 0 {
        seq!['-'] + nat_digits((-i) as nat)
    } else {
        nat_digits(i as nat)
    }
}

/// `nat_digits(n)` left-padded with `'0'` to at least `width` characters
/// (what `{:0width$}` prints for a non-negative integer).
pub open spec fn padded_digits(n: nat, width: nat) -> Seq<char> {
    let d = nat_digits(n);
    if d.len() >= width {
        d
    } else {
        Seq::new((width - d.len()) as nat, |i: int| '0') + d
    }
}

/// ASCII lowercase of one character.
pub open spec fn lower_char(c: char) -> char {
    if 'A' <= c && c <= 'Z' {
        ((c as int) + 32) as char
    } else {
        c
    }
}

/// ASCII lowercase of a string (`str::to_ascii_lowercase`).
pub open spec fn lower(s: Seq<char>) -> Seq<char> {
    s.map_values(|c: char| lower_char(c))
}

/// Collect characters into a `String` (`String::from_iter`).
#[verifier::external_body]
pub(crate) fn string_of(v: Vec<char>) -> (s: String)
    ensures
        s@ == v@,
{
    String::from_iter(v)
}

/// The characters of `s`.
pub fn chars_of(s: &str) -> (v: Vec<char>)
    ensures
        v@ == s@,
{
    let n = s.unicode_len();
    let mut v: Vec<char> = Vec::new();
    let mut i: usize = 0;
    while i < n
        invariant
            n == s@.len(),
            i <= n,
            v@ == s@.subrange(0, i as int),
        decreases n - i,
    {
        let c = s.get_char(i);
        v.push(c);
        i = i + 1;
        assert(v@ =~= s@.subrange(0, i as int));
    }
    assert(v@ =~= s@);
    v
}

/// Append the characters of `s` to `v`.
pub fn push_str(v: &mut Vec<char>, s: &str)
    ensures
        final(v)@ == old(v)@ + s@,
{
    let n = s.unicode_len();
    let mut i: usize = 0;
    let ghost start = v@;
    while i < n
        invariant
            n == s@.len(),
            i <= n,
            v@ == start + s@.subrange(0, i as int),
        decreases n - i,
    {
        let c = s.get_char(i);
        v.push(c);
        i = i + 1;
        assert(v@ =~= start + s@.subrange(0, i as int));
    }
    assert(s@.subrange(0, n as int) =~= s@);
}

/// Append the decimal digits of `n` to `v`.
pub fn push_nat(v: &mut Vec<char>, n: u64)
    ensures
        final(v)@ == old(v)@ + nat_digits(n as nat),
    decreases n,
{
    if n < 10 {
        let c = ((48u8 + (n as u8)) as char);
        v.push(c);
        assert(seq![digit_char(n as int)] =~= seq![c]);
    } else {
        push_nat(v, n / 10);
        let c = ((48u8 + ((n % 10) as u8)) as char);
        v.push(c);
        let ghost a = old(v)@;
        assert(a + nat_digits(n as nat) =~= (a + nat_digits((n / 10) as nat)).push(c));
    }
}

/// Append the decimal rendering of `i` to `v`.
pub fn push_int(v: &mut Vec<char>, i: i64)
    ensures
        final(v)@ == old(v)@ + int_text(i as int),
{
    if i < 0 {
        v.push('-');
        let m: u64 = if i == i64::MIN {
            9223372036854775808u64
        } else {
            (-i) as u64
        };
        push_nat(v, m);
        let ghost a = old(v)@;
        assert(a + int_text(i as int) =~= a.push('-') + nat_digits(m as nat));
    } else {
        push_nat(v, i as u64);
    }
}

/// Decimal rendering of `i` as a `String` (`i.to_string()`).
pub fn int_string(i: i64) -> (s: String)
    ensures
        s@ == int_text(i as int),
{
    let mut v: Vec<char> = Vec::new();
    push_int(&mut v, i);
    assert(v@ =~= int_text(i as int));
    string_of(v)
}

/// Append `n` in decimal, zero-padded to at least `width` digits.
pub fn push_padded(v: &mut Vec<char>, n: u64, width: usize)
    ensures
        final(v)@ == old(v)@ + padded_digits(n as nat, width as nat),
{
    let mut digits: Vec<char> = Vec::new();
    push_nat(&mut digits, n);
    assert(digits@ =~= nat_digits(n as nat));
    let ghost start = v@;
    if digits.len() < width {
        let pad = width - digits.len();
        let mut k: usize = 0;
        while k < pad
            invariant
                k <= pad,
                v@ == start + Seq::new(k as nat, |i: int| '0'),
            decreases pad - k,
        {
            v.push('0');
            k = k + 1;
            assert(v@ =~= start + Seq::new(k as nat, |i: int| '0'));
        }
    }
    let mut j: usize = 0;
    let ghost mid = v@;
    while j < digits.len()
        invariant
            j <= digits.len(),
            v@ == mid + digits@.subrange(0, j as int),
        decreases digits.len() - j,
    {
        v.push(digits[j]);
        j = j + 1;
        assert(v@ =~= mid + digits@.subrange(0, j as int));
    }
    assert(digits@.subrange(0, digits@.len() as int) =~= digits@);
    assert(v@ =~= start + padded_digits(n as nat, width as nat));
}

/// ASCII lowercase copy of `s` (`str::to_ascii_lowercase`).
pub fn to_lower(s: &str) -> (r: Vec<char>)
    ensures
        r@ == lower(s@),
{
    let n = s.unicode_len();
    let mut v: Vec<char> = Vec::new();
    let mut i: usize = 0;
    while i < n
        invariant
            n == s@.len(),
            i <= n,
            v@ == lower(s@.subrange(0, i as int)),
        decreases n - i,
    {
        let c = s.get_char(i);
        let l = if 'A' <= c && c <= 'Z' {
            ((c as u32) + 32) as u8 as char
        } else {
            c
        };
        assert(l == lower_char(c)) by {
            if 'A' <= c && c <= 'Z' {
                assert(((c as u32) + 32) as u8 as char == ((c as int) + 32) as char);
            }
        }
        v.push(l);
        i = i + 1;
        assert(v@ =~= lower(s@.subrange(0, i as int)));
    }
    assert(s@.subrange(0, n as int) =~= s@);
    v
}

/// Whether two character sequences are equal.
pub fn chars_eq(a: &Vec<char>, b: &str) -> (r: bool)
    ensures
        r == (a@ == b@),
{
    let n = b.unicode_len();
    if a.len() != n {
        return false;
    }
    let mut i: usize = 0;
    while i < n
        invariant
            n == b@.len(),
            a@.len() == n,
            i <= n,
            forall|k: int| 0 <= k < i ==> a@[k] == b@[k],
        decreases n - i,
    {
        if a[i] != b.get_char(i) {
            return false;
        }
        i = i + 1;
    }
    assert(a@ =~= b@);
    true
}

} // verus!

verus! {

/// The views of a sequence of string slices.
pub open spec fn strs(v: Seq<&str>) -> Seq<Seq<char>> {
    v.map_values(|s: &str| s@)
}

/// Whether `e` is one of `list`.
pub fn contains_str(list: &[&str], e: &Vec<char>) -> (r: bool)
    ensures
        r == strs(list@).contains(e@),
{
    let mut i: usize = 0;
    while i < list.len()
        invariant
            i <= list@.len(),
            forall|k: int| 0 <= k < i ==> list@[k]@ != e@,
        decreases list.len() - i,
    {
        if chars_eq(e, list[i]) {
            assert(strs(list@)[i as int] == e@);
            return true;
        }
        i = i + 1;
    }
    assert forall|k: int| 0 <= k < strs(list@).len() implies strs(list@)[k] != e@ by {
        assert(list@[k]@ != e@);
    }
    false
}

} // verus!

verus! {

/// Unicode `White_Space`, the property `char::is_whitespace` tests: tab,
/// line feed, vertical tab, form feed, carriage return, space, next line,
/// no-break space, ogham space mark, the spaces U+2000 to U+200A, line and
/// paragraph separators, narrow no-break space, medium mathematical space
/// and ideographic space.
pub open spec fn char_is_whitespace(c: char) -> bool {
    let v = c as int;
    ||| 0x09 <= v <= 0x0D
    ||| v == 0x20
    ||| v == 0x85
    ||| v == 0xA0
    ||| v == 0x1680
    ||| 0x2000 <= v <= 0x200A
    ||| v == 0x2028
    ||| v == 0x2029
    ||| v == 0x202F
    ||| v == 0x205F
    ||| v == 0x3000
}

/// Whether `c` is whitespace (`char::is_whitespace`).
pub fn is_whitespace(c: char) -> (r: bool)
    ensures
        r == char_is_whitespace(c),
{
    let v = c as u32;
    (0x09 <= v && v <= 0x0D) || v == 0x20 || v == 0x85 || v == 0xA0 || v == 0x1680 || (0x2000 <= v
        && v <= 0x200A) || v == 0x2028 || v == 0x2029 || v == 0x202F || v == 0x205F || v == 0x3000
}

/// `s` without leading whitespace.
pub open spec fn trim_start(s: Seq<char>) -> Seq<char>
    decreases s.len(),
{
    if s.len() > 0 && char_is_whitespace(s[0]) {
        trim_start(s.drop_first())
    } else {
        s
    }
}

/// `s` without trailing whitespace.
pub open spec fn trim_end(s: Seq<char>) -> Seq<char>
    decreases s.len(),
{
    if s.len() > 0 && char_is_whitespace(s.last()) {
        trim_end(s.drop_last())
    } else {
        s
    }
}

/// `str::trim`: `s` without leading and trailing whitespace.
pub open spec fn trim(s: Seq<char>) -> Seq<char> {
    trim_end(trim_start(s))
}

proof fn lemma_trim_start_skip(s: Seq<char>, i: int)
    requires
        0 <= i <= s.len(),
        forall|k: int| 0 <= k < i ==> char_is_whitespace(#[trigger] s[k]),
    ensures
        trim_start(s) == trim_start(s.skip(i)),
    decreases i,
{
    if i > 0 {
        assert(s.skip(1) =~= s.drop_first());
        lemma_trim_start_skip(s.drop_first(), i - 1);
        assert(s.drop_first().skip(i - 1) =~= s.skip(i));
    } else {
        assert(s.skip(0) =~= s);
    }
}

proof fn lemma_trim_end_take(s: Seq<char>, j: int)
    requires
        0 <= j <= s.len(),
        forall|k: int| j <= k < s.len() ==> char_is_whitespace(#[trigger] s[k]),
    ensures
        trim_end(s) == trim_end(s.take(j)),
    decreases s.len() - j,
{
    if j < s.len() {
        assert(s.take(s.len() - 1) =~= s.drop_last());
        lemma_trim_end_take(s.drop_last(), j);
        assert(s.drop_last().take(j) =~= s.take(j));
    } else {
        assert(s.take(j) =~= s);
    }
}

/// `s` without leading and trailing whitespace (`str::trim`).
pub fn trimmed(s: &Vec<char>) -> (r: Vec<char>)
    ensures
        r@ == trim(s@),
{
    let n = s.len();
    let mut i: usize = 0;
    while i < n && is_whitespace(s[i])
        invariant
            n == s@.len(),
            i <= n,
            forall|k: int| 0 <= k < i ==> char_is_whitespace(#[trigger] s@[k]),
        decreases n - i,
    {
        i = i + 1;
    }
    proof {
        lemma_trim_start_skip(s@, i as int);
    }
    let mut j: usize = n;
    while j > i && is_whitespace(s[j - 1])
        invariant
            n == s@.len(),
            i <= j <= n,
            forall|k: int| j <= k < n ==> char_is_whitespace(#[trigger] s@[k]),
        decreases j,
    {
        j = j - 1;
    }
    let ghost rest = s@.skip(i as int);
    proof {
        assert(i == n || !char_is_whitespace(s@[i as int]));
        assert(trim_start(rest) == rest);
        assert forall|k: int| j - i <= k < rest.len() implies char_is_whitespace(#[trigger] rest[k]) by {
            assert(rest[k] == s@[k + i]);
        }
        lemma_trim_end_take(rest, j - i);
        let t = rest.take(j - i);
        if t.len() > 0 {
            assert(t.last() == s@[j - 1]);
        }
        assert(trim_end(t) == t);
    }
    let mut r: Vec<char> = Vec::new();
    let mut k: usize = i;
    while k < j
        invariant
            i <= k <= j <= n,
            n == s@.len(),
            r@ == s@.subrange(i as int, k as int),
        decreases j - k,
    {
        r.push(s[k]);
        k = k + 1;
        assert(r@ =~= s@.subrange(i as int, k as int));
    }
    assert(r@ =~= rest.take(j - i));
    r
}

/// Whether `pat` occurs in `hay` at position `i`.
pub open spec fn occurs_at(hay: Seq<char>, pat: Seq<char>, i: int) -> bool {
    0 <= i && i + pat.len() <= hay.len() && hay.subrange(i, i + pat.len()) == pat
}

/// `str::contains` for a string pattern.
pub open spec fn seq_contains(hay: Seq<char>, pat: Seq<char>) -> bool {
    exists|i: int| occurs_at(hay, pat, i)
}

/// Whether `pat` occurs in `hay[from..to]`.
pub fn contains_in(hay: &Vec<char>, from: usize, to: usize, pat: &str) -> (r: bool)
    requires
        from <= to <= hay@.len(),
    ensures
        r == seq_contains(hay@.subrange(from as int, to as int), pat@),
{
    let p = chars_of(pat);
    let m = p.len();
    let ghost sub = hay@.subrange(from as int, to as int);
    if m > to - from {
        assert forall|i: int| !occurs_at(sub, pat@, i) by {}
        return false;
    }
    let mut i: usize = from;
    while i <= to - m
        invariant
            from <= i,
            i <= to + 1,
            to <= hay@.len(),
            p@ == pat@,
            m == p@.len(),
            m <= to - from,
            sub == hay@.subrange(from as int, to as int),
            forall|q: int| 0 <= q < i - from ==> !occurs_at(sub, pat@, q),
        decreases to + 1 - i,
    {
        let mut k: usize = 0;
        let mut ok = true;
        while k < m
            invariant
                k <= m,
                i + m <= to,
                to <= hay@.len(),
                p@ == pat@,
                m == p@.len(),
                ok ==> forall|t: int| 0 <= t < k ==> hay@[i + t] == p@[t],
                !ok ==> exists|t: int| 0 <= t < m && hay@[i + t] != p@[t],
            decreases m - k,
        {
            if hay[i + k] != p[k] {
                ok = false;
            }
            k = k + 1;
        }
        if ok {
            assert(sub.subrange(i - from, i - from + m) =~= pat@);
            assert(occurs_at(sub, pat@, i - from));
            return true;
        }
        proof {
            let t = choose|t: int| 0 <= t < m && hay@[i + t] != p@[t];
            if sub.subrange(i - from, i - from + m) == pat@ {
                assert(sub.subrange(i - from, i - from + m)[t] == hay@[i + t]);
            }
        }
        i = i + 1;
    }
    assert forall|q: int| !occurs_at(sub, pat@, q) by {
        if 0 <= q < i - from {
        }
    }
    false
}

} // verus!

verus! {

/// The pieces of `cur + s` split at every `sep` (`str::split` on one char),
/// where `cur` is the piece in progress.
pub open spec fn split_from(cur: Seq<char>, s: Seq<char>, sep: char) -> Seq<Seq<char>>
    decreases s.len(),
{
    if s.len() == 0 {
        seq![cur]
    } else if s[0] == sep {
        seq![cur] + split_from(Seq::empty(), s.drop_first(), sep)
    } else {
        split_from(cur.push(s[0]), s.drop_first(), sep)
    }
}

/// `str::split(sep)`: the pieces between occurrences of `sep`.
pub open spec fn split_on(s: Seq<char>, sep: char) -> Seq<Seq<char>> {
    split_from(Seq::empty(), s, sep)
}

/// Text without `sep` is a single piece.
pub proof fn lemma_split_plain(cur: Seq<char>, p: Seq<char>, sep: char)
    requires
        forall|k: int| 0 <= k < p.len() ==> p[k] != sep,
    ensures
        split_from(cur, p, sep) == seq![cur + p],
    decreases p.len(),
{
    if p.len() == 0 {
        assert(cur + p =~= cur);
    } else {
        lemma_split_plain(cur.push(p[0]), p.drop_first(), sep);
        assert(cur.push(p[0]) + p.drop_first() =~= cur + p);
    }
}

/// Splitting at the first `sep` after a piece `p` without one.
pub proof fn lemma_split_at(cur: Seq<char>, p: Seq<char>, q: Seq<char>, sep: char)
    requires
        forall|k: int| 0 <= k < p.len() ==> p[k] != sep,
    ensures
        split_from(cur, p + seq![sep] + q, sep) == seq![cur + p] + split_from(Seq::empty(), q, sep),
    decreases p.len(),
{
    let s = p + seq![sep] + q;
    if p.len() == 0 {
        assert(s[0] == sep);
        assert(s.drop_first() =~= q);
        assert(cur + p =~= cur);
    } else {
        assert(s[0] == p[0]);
        assert(s.drop_first() =~= p.drop_first() + seq![sep] + q);
        lemma_split_at(cur.push(p[0]), p.drop_first(), q, sep);
        assert(cur.push(p[0]) + p.drop_first() =~= cur + p);
    }
}


/// The views of a sequence of character vectors.
pub open spec fn char_views(v: Seq<Vec<char>>) -> Seq<Seq<char>> {
    v.map_values(|x: Vec<char>| x@)
}

/// `s.split(sep)`, each piece as characters.
pub fn split_chars(s: &Vec<char>, sep: char) -> (r: Vec<Vec<char>>)
    ensures
        char_views(r@) == split_on(s@, sep),
        r@.len() >= 1,
{
    let mut done: Vec<Vec<char>> = Vec::new();
    let mut cur: Vec<char> = Vec::new();
    let mut i: usize = 0;
    assert(s@.skip(0) =~= s@);
    assert(char_views(done@) =~= Seq::<Seq<char>>::empty());
    assert(cur@ =~= Seq::<char>::empty());
    assert(Seq::<Seq<char>>::empty() + split_on(s@, sep) =~= split_on(s@, sep));
    while i < s.len()
        invariant
            i <= s@.len(),
            char_views(done@) + split_from(cur@, s@.skip(i as int), sep) == split_on(s@, sep),
        decreases s.len() - i,
    {
        let c = s[i];
        assert(s@.skip(i as int).drop_first() =~= s@.skip(i + 1));
        assert(s@.skip(i as int)[0] == c);
        let ghost before = char_views(done@);
        if c == sep {
            let ghost cv = cur@;
            done.push(cur);
            cur = Vec::new();
            assert(char_views(done@) =~= before.push(cv));
            assert(before + (seq![cv] + split_from(Seq::empty(), s@.skip(i + 1), sep))
                =~= before.push(cv) + split_from(Seq::empty(), s@.skip(i + 1), sep));
            assert(cur@ =~= Seq::<char>::empty());
        } else {
            cur.push(c);
            assert(char_views(done@) == before);
        }
        i = i + 1;
    }
    let ghost before = char_views(done@);
    let ghost cv = cur@;
    assert(s@.skip(i as int) =~= Seq::<char>::empty());
    done.push(cur);
    assert(char_views(done@) =~= before.push(cv));
    assert(before + seq![cv] =~= before.push(cv));
    done
}

} // verus!

verus! {

/// The whitespace-separated words of `rest`, the first one extending `cur`
/// (the scan of `str::split_whitespace`).
pub open spec fn words_from(cur: Seq<char>, rest: Seq<char>) -> Seq<Seq<char>>
    decreases rest.len(),
{
    if rest.len() == 0 {
        if cur.len() == 0 {
            Seq::empty()
        } else {
            seq![cur]
        }
    } else if char_is_whitespace(rest[0]) {
        if cur.len() == 0 {
            words_from(cur, rest.drop_first())
        } else {
            seq![cur] + words_from(Seq::empty(), rest.drop_first())
        }
    } else {
        words_from(cur.push(rest[0]), rest.drop_first())
    }
}

/// `str::split_whitespace`: the maximal runs of non-whitespace characters.
pub open spec fn words(s: Seq<char>) -> Seq<Seq<char>> {
    words_from(Seq::empty(), s)
}

/// Whether `s` holds no whitespace.
pub open spec fn no_whitespace(s: Seq<char>) -> bool {
    forall|k: int| 0 <= k < s.len() ==> !char_is_whitespace(#[trigger] s[k])
}

/// `parts` joined by single spaces.
pub open spec fn spaced(parts: Seq<Seq<char>>) -> Seq<char>
    decreases parts.len(),
{
    if parts.len() == 0 {
        Seq::empty()
    } else if parts.len() == 1 {
        parts[0]
    } else {
        parts[0] + seq![' '] + spaced(parts.drop_first())
    }
}

proof fn lemma_words_word(cur: Seq<char>, t: Seq<char>, rest: Seq<char>)
    requires
        no_whitespace(t),
    ensures
        words_from(cur, t + rest) == words_from(cur + t, rest),
    decreases t.len(),
{
    if t.len() == 0 {
        assert(t + rest =~= rest);
        assert(cur + t =~= cur);
    } else {
        assert((t + rest)[0] == t[0]);
        assert((t + rest).drop_first() =~= t.drop_first() + rest);
        lemma_words_word(cur.push(t[0]), t.drop_first(), rest);
        assert(cur.push(t[0]) + t.drop_first() =~= cur + t);
    }
}

proof fn lemma_words_from_starts_with(cur: Seq<char>, rest: Seq<char>)
    requires
        cur.len() > 0,
    ensures
        words_from(cur, rest).len() > 0,
        words_from(cur, rest)[0].len() >= cur.len(),
        words_from(cur, rest)[0].subrange(0, cur.len() as int) == cur,
    decreases rest.len(),
{
    if rest.len() == 0 {
        assert(cur.subrange(0, cur.len() as int) =~= cur);
    } else if char_is_whitespace(rest[0]) {
        assert(cur.subrange(0, cur.len() as int) =~= cur);
    } else {
        let next = cur.push(rest[0]);
        lemma_words_from_starts_with(next, rest.drop_first());
        let w = words_from(next, rest.drop_first())[0];
        assert(w.subrange(0, cur.len() as int) =~= next.subrange(0, cur.len() as int));
        assert(next.subrange(0, cur.len() as int) =~= cur);
    }
}

/// A text that opens with a run `t` of non-whitespace characters has a first
/// word, and that word begins with `t`.
pub proof fn lemma_first_word_begins_with(s: Seq<char>, t: Seq<char>)
    requires
        t.len() > 0,
        no_whitespace(t),
        t.len() <= s.len(),
        s.subrange(0, t.len() as int) == t,
    ensures
        words(s).len() > 0,
        words(s)[0].len() >= t.len(),
        words(s)[0].subrange(0, t.len() as int) == t,
{
    let e = Seq::<char>::empty();
    let rest = s.subrange(t.len() as int, s.len() as int);
    assert(s =~= t + rest);
    lemma_words_word(e, t, rest);
    assert(e + t =~= t);
    lemma_words_from_starts_with(t, rest);
}

/// Splitting words joined by single spaces gives the words back, when each
/// is non-empty and holds no whitespace.
pub proof fn lemma_words_spaced(parts: Seq<Seq<char>>)
    requires
        parts.len() > 0,
        forall|i: int| 0 <= i < parts.len() ==> #[trigger] parts[i].len() > 0 && no_whitespace(parts[i]),
    ensures
        words(spaced(parts)) == parts,
    decreases parts.len(),
{
    let e = Seq::<char>::empty();
    let t = parts[0];
    assert(parts[0].len() > 0 && no_whitespace(parts[0]));
    if parts.len() == 1 {
        lemma_words_word(e, t, e);
        assert(t + e =~= t);
        assert(e + t =~= t);
        assert(words_from(t, e) == seq![t]);
        assert(seq![t] =~= parts);
    } else {
        let tail = parts.drop_first();
        assert forall|i: int| 0 <= i < tail.len() implies #[trigger] tail[i].len() > 0 && no_whitespace(tail[i]) by {
            assert(tail[i] == parts[i + 1]);
            assert(parts[i + 1].len() > 0 && no_whitespace(parts[i + 1]));
        }
        lemma_words_spaced(tail);
        let rest = seq![' '] + spaced(tail);
        assert(spaced(parts) =~= t + rest);
        lemma_words_word(e, t, rest);
        assert(e + t =~= t);
        assert(rest[0] == ' ');
        assert(rest.drop_first() =~= spaced(tail));
        assert(words_from(t, rest) == seq![t] + words_from(e, spaced(tail)));
        assert(seq![t] + tail =~= parts);
    }
}

/// The whitespace-separated words of `s` (`str::split_whitespace`).
pub fn split_words(s: &Vec<char>) -> (r: Vec<Vec<char>>)
    ensures
        char_views(r@) == words(s@),
{
    let mut out: Vec<Vec<char>> = Vec::new();
    let mut cur: Vec<char> = Vec::new();
    let mut i: usize = 0;
    assert(s@.skip(0) =~= s@);
    while i < s.len()
        invariant
            i <= s@.len(),
            char_views(out@) + words_from(cur@, s@.skip(i as int)) == words(s@),
        decreases s.len() - i,
    {
        let c = s[i];
        let ghost rest = s@.skip(i as int);
        assert(rest[0] == c);
        assert(rest.drop_first() =~= s@.skip(i + 1));
        if is_whitespace(c) {
            if cur.len() > 0 {
                let ghost before = char_views(out@);
                let ghost word = cur@;
                out.push(cur);
                cur = Vec::new();
                assert(char_views(out@) =~= before.push(word));
                assert(before + words_from(word, rest) =~= before.push(word) + words_from(cur@, s@.skip(i + 1)));
            }
        } else {
            cur.push(c);
        }
        i = i + 1;
    }
    assert(s@.skip(i as int) =~= Seq::<char>::empty());
    if cur.len() > 0 {
        let ghost before = char_views(out@);
        let ghost word = cur@;
        out.push(cur);
        assert(char_views(out@) =~= before.push(word));
        assert(before + seq![word] =~= before.push(word));
    } else {
        assert(char_views(out@) + Seq::<Seq<char>>::empty() =~= char_views(out@));
    }
    out
}

} // verus!

verus! {

/// Whether `i` is the first position of `c` in `s`.
pub open spec fn is_first_index(s: Seq<char>, c: char, i: int) -> bool {
    0 <= i < s.len() && s[i] == c && forall|j: int| 0 <= j < i ==> s[j] != c
}

/// `str::split_once(c)`: the text before and after the first `c`.
pub open spec fn split_once(s: Seq<char>, c: char) -> Option<(Seq<char>, Seq<char>)> {
    if exists|i: int| is_first_index(s, c, i) {
        let i = choose|i: int| is_first_index(s, c, i);
        Some((s.take(i), s.skip(i + 1)))
    } else {
        None
    }
}

/// The text before and after the first `c` in `s`, if it has one.
pub fn split_once_char(s: &Vec<char>, c: char) -> (r: Option<(Vec<char>, Vec<char>)>)
    ensures
        match r {
            Some((a, b)) => split_once(s@, c) == Some((a@, b@)),
            None => split_once(s@, c) is None,
        },
{
    let mut i: usize = 0;
    while i < s.len()
        invariant
            i <= s@.len(),
            forall|j: int| 0 <= j < i ==> s@[j] != c,
        decreases s.len() - i,
    {
        if s[i] == c {
            let ghost k = choose|k: int| is_first_index(s@, c, k);
            assert(is_first_index(s@, c, i as int));
            proof {
                if k < i {
                } else if k > i {
                    assert(s@[i as int] != c);
                }
            }
            let mut a: Vec<char> = Vec::new();
            let mut j: usize = 0;
            while j < i
                invariant
                    j <= i < s@.len(),
                    a@ == s@.take(j as int),
                decreases i - j,
            {
                a.push(s[j]);
                j = j + 1;
                assert(a@ =~= s@.take(j as int));
            }
            let mut b: Vec<char> = Vec::new();
            let mut m: usize = i + 1;
            while m < s.len()
                invariant
                    i + 1 <= m <= s@.len(),
                    b@ == s@.subrange(i + 1, m as int),
                decreases s.len() - m,
            {
                b.push(s[m]);
                m = m + 1;
                assert(b@ =~= s@.subrange(i + 1, m as int));
            }
            assert(b@ =~= s@.skip(i + 1));
            return Some((a, b));
        }
        i = i + 1;
    }
    assert(!exists|k: int| is_first_index(s@, c, k));
    None
}

} // verus!

verus! {

/// The pieces of `rest` between non-overlapping occurrences of `p` (found
/// left to right), the first piece extending `cur`.
pub open spec fn split_pat_from(cur: Seq<char>, rest: Seq<char>, p: Seq<char>) -> Seq<Seq<char>>
    decreases rest.len(),
{
    if rest.len() == 0 {
        seq![cur]
    } else if p.len() > 0 && p.len() <= rest.len() && rest.take(p.len() as int) == p {
        seq![cur] + split_pat_from(Seq::empty(), rest.skip(p.len() as int), p)
    } else {
        split_pat_from(cur.push(rest[0]), rest.drop_first(), p)
    }
}

/// `str::split(p)` for a non-empty string pattern.
pub open spec fn split_pat(s: Seq<char>, p: Seq<char>) -> Seq<Seq<char>> {
    split_pat_from(Seq::empty(), s, p)
}

/// Whether `p` occurs in `s` at `i`.
fn matches_at(s: &Vec<char>, i: usize, p: &Vec<char>) -> (r: bool)
    requires
        i <= s@.len(),
    ensures
        r == (p@.len() <= s@.len() - i && s@.skip(i as int).take(p@.len() as int) == p@),
{
    if p.len() > s.len() - i {
        return false;
    }
    let mut k: usize = 0;
    while k < p.len()
        invariant
            i <= s@.len(),
            k <= p@.len(),
            p@.len() <= s@.len() - i,
            i + p.len() <= s.len(),
            forall|j: int| 0 <= j < k ==> s@[i + j] == p@[j],
        decreases p.len() - k,
    {
        if s[i + k] != p[k] {
            assert(s@.skip(i as int).take(p@.len() as int)[k as int] != p@[k as int]);
            return false;
        }
        k = k + 1;
    }
    assert(s@.skip(i as int).take(p@.len() as int) =~= p@);
    true
}

/// `s.split(p)` for a non-empty pattern, each piece as characters.
pub fn split_by(s: &Vec<char>, p: &str) -> (r: Vec<Vec<char>>)
    requires
        p@.len() > 0,
    ensures
        char_views(r@) == split_pat(s@, p@),
{
    let pv = chars_of(p);
    let mut done: Vec<Vec<char>> = Vec::new();
    let mut cur: Vec<char> = Vec::new();
    let mut i: usize = 0;
    assert(s@.skip(0) =~= s@);
    assert(char_views(done@) + split_pat(s@, p@) =~= split_pat(s@, p@));
    while i < s.len()
        invariant
            i <= s@.len(),
            pv@ == p@,
            p@.len() > 0,
            char_views(done@) + split_pat_from(cur@, s@.skip(i as int), p@) == split_pat(s@, p@),
        decreases s.len() - i,
    {
        let ghost rest = s@.skip(i as int);
        let ghost before = char_views(done@);
        if matches_at(s, i, &pv) {
            let ghost cv = cur@;
            done.push(cur);
            cur = Vec::new();
            assert(char_views(done@) =~= before.push(cv));
            assert(rest.skip(p@.len() as int) =~= s@.skip(i + p@.len()));
            assert(before + (seq![cv] + split_pat_from(Seq::empty(), rest.skip(p@.len() as int), p@))
                =~= before.push(cv) + split_pat_from(cur@, s@.skip(i + p@.len()), p@));
            i = i + pv.len();
        } else {
            let c = s[i];
            assert(rest[0] == c);
            assert(rest.drop_first() =~= s@.skip(i + 1));
            cur.push(c);
            assert(char_views(done@) == before);
            i = i + 1;
        }
    }
    let ghost before = char_views(done@);
    let ghost cv = cur@;
    assert(s@.skip(i as int) =~= Seq::<char>::empty());
    done.push(cur);
    assert(char_views(done@) =~= before.push(cv));
    assert(before + seq![cv] =~= before.push(cv));
    done
}

/// `s` without leading copies of `c`.
pub open spec fn strip_start_char(s: Seq<char>, c: char) -> Seq<char>
    decreases s.len(),
{
    if s.len() > 0 && s[0] == c {
        strip_start_char(s.drop_first(), c)
    } else {
        s
    }
}

/// `s` without trailing copies of `c`.
pub open spec fn strip_end_char(s: Seq<char>, c: char) -> Seq<char>
    decreases s.len(),
{
    if s.len() > 0 && s.last() == c {
        strip_end_char(s.drop_last(), c)
    } else {
        s
    }
}

/// `str::trim_matches(c)`: `s` without leading and trailing copies of `c`.
pub open spec fn trim_char(s: Seq<char>, c: char) -> Seq<char> {
    strip_end_char(strip_start_char(s, c), c)
}

/// `s` without leading and trailing copies of `c`.
pub fn trimmed_char(s: &Vec<char>, c: char) -> (r: Vec<char>)
    ensures
        r@ == trim_char(s@, c),
{
    let n = s.len();
    let mut i: usize = 0;
    assert(s@.skip(0) =~= s@);
    while i < n && s[i] == c
        invariant
            n == s@.len(),
            i <= n,
            strip_start_char(s@, c) == strip_start_char(s@.skip(i as int), c),
        decreases n - i,
    {
        assert(s@.skip(i as int).drop_first() =~= s@.skip(i + 1));
        i = i + 1;
    }
    let ghost t = s@.skip(i as int);
    assert(strip_start_char(t, c) == t);
    let mut j: usize = n;
    assert(t.take(j - i) =~= t);
    while j > i && s[j - 1] == c
        invariant
            n == s@.len(),
            i <= j <= n,
            t == s@.skip(i as int),
            strip_end_char(t, c) == strip_end_char(t.take(j - i), c),
        decreases j,
    {
        assert(t.take(j - i).drop_last() =~= t.take(j - 1 - i));
        j = j - 1;
    }
    assert(strip_end_char(t.take(j - i), c) == t.take(j - i));
    let mut r: Vec<char> = Vec::new();
    let mut k: usize = i;
    while k < j
        invariant
            i <= k <= j <= n,
            n == s@.len(),
            r@ == s@.subrange(i as int, k as int),
        decreases j - k,
    {
        r.push(s[k]);
        k = k + 1;
        assert(r@ =~= s@.subrange(i as int, k as int));
    }
    assert(r@ =~= t.take(j - i));
    r
}

} // verus!

verus! {

/// `s` without trailing whitespace (`str::trim_end`).
pub fn trimmed_end(s: &Vec<char>) -> (r: Vec<char>)
    ensures
        r@ == trim_end(s@),
{
    let n = s.len();
    let mut j: usize = n;
    while j > 0 && is_whitespace(s[j - 1])
        invariant
            n == s@.len(),
            j <= n,
            forall|k: int| j <= k < n ==> char_is_whitespace(#[trigger] s@[k]),
        decreases j,
    {
        j = j - 1;
    }
    proof {
        lemma_trim_end_take(s@, j as int);
        let t = s@.take(j as int);
        if t.len() > 0 {
            assert(t.last() == s@[j - 1]);
        }
        assert(trim_end(t) == t);
    }
    let mut r: Vec<char> = Vec::new();
    let mut k: usize = 0;
    while k < j
        invariant
            k <= j <= n,
            n == s@.len(),
            r@ == s@.take(k as int),
        decreases j - k,
    {
        r.push(s[k]);
        k = k + 1;
        assert(r@ =~= s@.take(k as int));
    }
    r
}

} // verus!

verus! {

/// Lowercasing leaves text without capitals as it is.
pub proof fn lemma_lower_unchanged(s: Seq<char>)
    requires
        forall|k: int| 0 <= k < s.len() ==> !('A' <= #[trigger] s[k] && s[k] <= 'Z'),
    ensures
        lower(s) == s,
{
    assert(lower(s) =~= s);
}

/// Trimming leaves text that neither starts nor ends with whitespace as it is.
pub proof fn lemma_trim_unchanged(s: Seq<char>)
    requires
        s.len() > 0,
        !char_is_whitespace(s[0]),
        !char_is_whitespace(s.last()),
    ensures
        trim(s) == s,
{
}


/// ASCII uppercase of one character.
pub open spec fn upper_char(c: char) -> char {
    if 'a' <= c && c <= 'z' {
        ((c as int) - 32) as char
    } else {
        c
    }
}

/// ASCII uppercase of a string (`str::to_ascii_uppercase`).
pub open spec fn upper(s: Seq<char>) -> Seq<char> {
    s.map_values(|c: char| upper_char(c))
}

/// Case does not matter to lowercasing: uppercasing first changes nothing.
pub proof fn lemma_lower_of_upper(s: Seq<char>)
    ensures
        lower(upper(s)) == lower(s),
{
    assert forall|k: int| 0 <= k < s.len() implies lower_char(upper_char(s[k])) == lower_char(s[k]) by {
        let c = s[k];
        if 'a' <= c && c <= 'z' {
            assert(((((c as int) - 32) as char) as int) == (c as int) - 32);
        }
    }
    assert(lower(upper(s)) =~= lower(s));
}

/// Trimming text padded with a space on each side gives the text back, when
/// it neither starts nor ends with whitespace.
pub proof fn lemma_trim_padded(s: Seq<char>)
    requires
        s.len() > 0,
        !char_is_whitespace(s[0]),
        !char_is_whitespace(s.last()),
    ensures
        trim(seq![' '] + s + seq![' ']) == s,
{
    let p = seq![' '] + s + seq![' '];
    assert(char_is_whitespace(' '));
    assert(p[0] == ' ');
    assert(p.drop_first() =~= s + seq![' ']);
    assert((s + seq![' '])[0] == s[0]);
    assert(trim_start(s + seq![' ']) == s + seq![' ']);
    assert(trim_start(p) == trim_start(p.drop_first()));
    assert(trim_start(p) == s + seq![' ']);
    assert((s + seq![' ']).drop_last() =~= s);
    assert(trim_end(s + seq![' ']) == trim_end(s));
}

/// `split_once` at a `c` with none before it.
pub proof fn lemma_split_once_at(a: Seq<char>, c: char, b: Seq<char>)
    requires
        forall|k: int| 0 <= k < a.len() ==> a[k] != c,
    ensures
        split_once(a + seq![c] + b, c) == Some((a, b)),
{
    let s = a + seq![c] + b;
    let n = a.len() as int;
    assert(is_first_index(s, c, n));
    let i = choose|i: int| is_first_index(s, c, i);
    if i < n {
        assert(s[i] == a[i]);
    } else if i > n {
        assert(s[n] == c);
    }
    assert(s.take(n) =~= a);
    assert(s.skip(n + 1) =~= b);
}

/// `split_once` finds nothing in text without `c`.
pub proof fn lemma_split_once_none(s: Seq<char>, c: char)
    requires
        forall|k: int| 0 <= k < s.len() ==> s[k] != c,
    ensures
        split_once(s, c) is None,
{
}

/// What `split_once` returns are the text before and after a `c`, with no
/// `c` before it.
pub proof fn lemma_split_once_parts(s: Seq<char>, c: char)
    ensures
        split_once(s, c) matches Some((a, b)) ==> s == a + seq![c] + b && forall|k: int|
            0 <= k < a.len() ==> a[k] != c,
{
    if exists|i: int| is_first_index(s, c, i) {
        let i = choose|i: int| is_first_index(s, c, i);
        assert(s =~= s.take(i) + seq![c] + s.skip(i + 1));
    }
}

/// Leading whitespace goes.
pub proof fn lemma_trim_start_ws(w: Seq<char>, t: Seq<char>)
    requires
        forall|k: int| 0 <= k < w.len() ==> char_is_whitespace(#[trigger] w[k]),
        t.len() > 0,
        !char_is_whitespace(t[0]),
    ensures
        trim_start(w + t) == t,
    decreases w.len(),
{
    if w.len() == 0 {
        assert(w + t =~= t);
    } else {
        assert((w + t)[0] == w[0]);
        assert((w + t).drop_first() =~= w.drop_first() + t);
        lemma_trim_start_ws(w.drop_first(), t);
    }
}

/// Trailing whitespace goes.
pub proof fn lemma_trim_end_ws(t: Seq<char>, w: Seq<char>)
    requires
        forall|k: int| 0 <= k < w.len() ==> char_is_whitespace(#[trigger] w[k]),
        t.len() > 0,
        !char_is_whitespace(t.last()),
    ensures
        trim_end(t + w) == t,
    decreases w.len(),
{
    if w.len() == 0 {
        assert(t + w =~= t);
    } else {
        assert((t + w).last() == w.last());
        assert((t + w).drop_last() =~= t + w.drop_last());
        lemma_trim_end_ws(t, w.drop_last());
    }
}

/// Trimming text wrapped in whitespace gives the text, when it neither
/// starts nor ends with whitespace.
pub proof fn lemma_trim_wrapped(pre: Seq<char>, t: Seq<char>, post: Seq<char>)
    requires
        forall|k: int| 0 <= k < pre.len() ==> char_is_whitespace(#[trigger] pre[k]),
        forall|k: int| 0 <= k < post.len() ==> char_is_whitespace(#[trigger] post[k]),
        t.len() > 0,
        !char_is_whitespace(t[0]),
        !char_is_whitespace(t.last()),
    ensures
        trim(pre + t + post) == t,
{
    assert((t + post).len() > 0 && (t + post)[0] == t[0]);
    lemma_trim_start_ws(pre, t + post);
    assert(pre + t + post =~= pre + (t + post));
    lemma_trim_end_ws(t, post);
}

/// Whether `s` holds `->` at `k`.
pub open spec fn holds_arrow_at(s: Seq<char>, k: int) -> bool {
    0 <= k && k + 1 < s.len() && s[k] == '-' && s[k + 1] == '>'
}

/// Whether `s` holds `->` somewhere.
pub open spec fn has_arrow(s: Seq<char>) -> bool {
    exists|k: int| #[trigger] holds_arrow_at(s, k)
}

/// Splitting at `->` after a piece `a` without one.
pub proof fn lemma_split_arrow(cur: Seq<char>, a: Seq<char>, b: Seq<char>)
    requires
        !has_arrow(a),
    ensures
        split_pat_from(cur, a + "->"@ + b, "->"@) == seq![cur + a] + split_pat_from(Seq::empty(), b, "->"@),
    decreases a.len(),
{
    reveal_strlit("->");
    let r = a + "->"@ + b;
    if a.len() == 0 {
        assert(r =~= "->"@ + b);
        assert(r.take(2) =~= "->"@);
        assert(r.skip(2) =~= b);
        assert(cur + a =~= cur);
    } else {
        assert(r[0] == a[0]);
        if a.len() > 1 {
            assert(r[1] == a[1]);
            assert(!holds_arrow_at(a, 0));
        } else {
            assert(r[1] == '-');
        }
        assert(r.take(2) != "->"@) by {
            if r.take(2) == "->"@ {
                assert(r.take(2)[0] == r[0] && r.take(2)[1] == r[1]);
            }
        }
        assert(r.drop_first() =~= a.drop_first() + "->"@ + b);
        assert(!has_arrow(a.drop_first())) by {
            if has_arrow(a.drop_first()) {
                let k = choose|k: int| holds_arrow_at(a.drop_first(), k);
                assert(holds_arrow_at(a, k + 1));
            }
        }
        lemma_split_arrow(cur.push(a[0]), a.drop_first(), b);
        assert(cur.push(a[0]) + a.drop_first() =~= cur + a);
    }
}

/// Text without `->` is a single piece.
pub proof fn lemma_split_arrow_last(cur: Seq<char>, a: Seq<char>)
    requires
        !has_arrow(a),
    ensures
        split_pat_from(cur, a, "->"@) == seq![cur + a],
    decreases a.len(),
{
    reveal_strlit("->");
    if a.len() == 0 {
        assert(cur + a =~= cur);
    } else {
        if a.len() >= 2 {
            assert(a.take(2) != "->"@) by {
                if a.take(2) == "->"@ {
                    assert(a.take(2)[0] == a[0] && a.take(2)[1] == a[1]);
                    assert(holds_arrow_at(a, 0));
                }
            }
        }
        assert(!has_arrow(a.drop_first())) by {
            if has_arrow(a.drop_first()) {
                let k = choose|k: int| holds_arrow_at(a.drop_first(), k);
                assert(holds_arrow_at(a, k + 1));
            }
        }
        lemma_split_arrow_last(cur.push(a[0]), a.drop_first());
        assert(cur.push(a[0]) + a.drop_first() =~= cur + a);
    }
}

} // verus!
