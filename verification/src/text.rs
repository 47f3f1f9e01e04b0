//! Text: the string operations the client needs, over sequences of characters.
use vstd::prelude::*;

verus! {

/// `String::push` appends one character to the end of the string.
pub assume_specification[ String::push ](s: &mut String, c: char)
    ensures
        final(s)@ == old(s)@.push(c),
;

/// The characters inside an optional string.
pub open spec fn opt_view(o: Option<String>) -> Option<Seq<char>> {
    match o {
        Some(s) => Some(s@),
        None => None,
    }
}

/// The characters of each string of a list.
pub open spec fn list_view(v: Seq<String>) -> Seq<Seq<char>> {
    v.map_values(|s: String| s@)
}

/// The characters of a string, in order.
pub fn to_chars(s: &str) -> (res: Vec<char>)
    ensures
        res@ == s@,
{
    let mut out: Vec<char> = Vec::new();
    for c in it: s.chars()
        invariant
            out@ == it.seq().take(it.index() as int),
            it.seq() == s@,
    {
        out.push(c);
    }
    out
}

/// The string whose characters are `chars[from..to]`.
pub fn from_range(chars: &[char], from: usize, to: usize) -> (res: String)
    requires
        from <= to <= chars@.len(),
    ensures
        res@ == chars@.subrange(from as int, to as int),
{
    let mut out = String::new();
    let mut i: usize = from;
    while i < to
        invariant
            from <= i <= to <= chars@.len(),
            out@ == chars@.subrange(from as int, i as int),
        decreases to - i,
    {
        out.push(chars[i]);
        i = i + 1;
    }
    out
}

/// A copy of the text as an owned string.
pub fn own(s: &str) -> (res: String)
    ensures
        res@ == s@,
{
    s.to_owned()
}

/// Whether two strings have the same characters.
pub fn str_eq(a: &str, b: &str) -> (res: bool)
    ensures
        res == (a@ == b@),
{
    own(a) == own(b)
}

/// Whether two optional strings are both absent, or both present with the same characters.
pub fn opt_eq(a: &Option<String>, b: &Option<String>) -> (res: bool)
    ensures
        res == (opt_view(*a) == opt_view(*b)),
{
    match (a, b) {
        (Some(x), Some(y)) => str_eq(x.as_str(), y.as_str()),
        (None, None) => true,
        _ => false,
    }
}

/// A copy of an optional string.
pub fn opt_clone(o: &Option<String>) -> (res: Option<String>)
    ensures
        res == *o,
{
    match o {
        Some(s) => Some(s.clone()),
        None => None,
    }
}

/// A copy of a list of strings.
pub fn list_clone(v: &Vec<String>) -> (res: Vec<String>)
    ensures
        res@ == v@,
{
    let mut out: Vec<String> = Vec::new();
    let mut i: usize = 0;
    while i < v.len()
        invariant
            i <= v.len(),
            out@ == v@.take(i as int),
        decreases v.len() - i,
    {
        out.push(v[i].clone());
        i = i + 1;
    }
    assert(v@.take(v@.len() as int) == v@);
    out
}

/// Whether two lists say the same.
pub fn list_eq(a: &Vec<String>, b: &Vec<String>) -> (res: bool)
    ensures
        res == (list_view(a@) == list_view(b@)),
{
    let ghost av = list_view(a@);
    let ghost bv = list_view(b@);
    if a.len() != b.len() {
        assert(av.len() != bv.len());
        return false;
    }
    let mut i: usize = 0;
    while i < a.len()
        invariant
            i <= a@.len(),
            a@.len() == b@.len(),
            av == list_view(a@),
            bv == list_view(b@),
            forall|j: int| 0 <= j < i ==> av[j] == bv[j],
        decreases a@.len() - i,
    {
        assert(av[i as int] == a@[i as int]@);
        assert(bv[i as int] == b@[i as int]@);
        if !str_eq(a[i].as_str(), b[i].as_str()) {
            return false;
        }
        i = i + 1;
    }
    assert(av =~= bv);
    true
}

/// The concatenation of two strings.
pub fn join2(a: &str, b: &str) -> (res: String)
    ensures
        res@ == a@ + b@,
{
    let mut out = own(a);
    out.append(b);
    out
}

/// The concatenation of three strings.
pub fn join3(a: &str, b: &str, c: &str) -> (res: String)
    ensures
        res@ == a@ + b@ + c@,
{
    let mut out = own(a);
    out.append(b);
    out.append(c);
    out
}

/// Whether some string of the list has the characters `s`.
pub open spec fn list_has(v: Seq<String>, s: Seq<char>) -> bool {
    exists|i: int| 0 <= i < v.len() && (#[trigger] v[i])@ == s
}

/// Whether the list holds a string equal to `s`.
pub fn list_contains(v: &Vec<String>, s: &str) -> (res: bool)
    ensures
        res == list_has(v@, s@),
{
    let mut i: usize = 0;
    while i < v.len()
        invariant
            i <= v.len(),
            forall|j: int| 0 <= j < i ==> (#[trigger] v@[j])@ != s@,
        decreases v.len() - i,
    {
        if str_eq(v[i].as_str(), s) {
            return true;
        }
        i = i + 1;
    }
    false
}

/// A list has a text where the texts of the list contain it.
pub proof fn lemma_list_has(v: Seq<String>, s: Seq<char>)
    ensures
        list_has(v, s) == list_view(v).contains(s),
{
    if list_has(v, s) {
        let i = choose|i: int| 0 <= i < v.len() && (#[trigger] v[i])@ == s;
        assert(list_view(v)[i] == s);
    }
    if list_view(v).contains(s) {
        let i = choose|i: int| 0 <= i < list_view(v).len() && list_view(v)[i] == s;
        assert(v[i]@ == s);
    }
}

/// A list without the later copies of each text, in the order of first mention.
pub open spec fn deduped(ids: Seq<Seq<char>>) -> Seq<Seq<char>>
    decreases ids.len(),
{
    if ids.len() == 0 {
        Seq::empty()
    } else {
        let rest = deduped(ids.drop_last());
        if rest.contains(ids.last()) {
            rest
        } else {
            rest.push(ids.last())
        }
    }
}

/// The list without later copies.
pub fn dedup_ids(ids: &Vec<String>) -> (res: Vec<String>)
    ensures
        list_view(res@) == deduped(list_view(ids@)),
{
    let ghost all = list_view(ids@);
    let mut out: Vec<String> = Vec::new();
    let mut i: usize = 0;
    assert(list_view(out@) =~= deduped(all.take(0)));
    while i < ids.len()
        invariant
            i <= ids@.len(),
            all == list_view(ids@),
            list_view(out@) == deduped(all.take(i as int)),
        decreases ids@.len() - i,
    {
        proof {
            assert(all.take(i + 1).drop_last() =~= all.take(i as int));
            assert(all.take(i + 1).last() == ids@[i as int]@);
            lemma_list_has(out@, ids@[i as int]@);
        }
        if !list_contains(&out, ids[i].as_str()) {
            let ghost before = list_view(out@);
            out.push(ids[i].clone());
            assert(list_view(out@) =~= before.push(ids@[i as int]@));
        }
        i = i + 1;
    }
    assert(all.take(all.len() as int) =~= all);
    out
}

/// A deduplicated list has no text twice and has the same texts.
pub proof fn deduped_sound(ids: Seq<Seq<char>>)
    ensures
        deduped(ids).no_duplicates(),
        forall|x: Seq<char>| #[trigger] deduped(ids).contains(x) <==> ids.contains(x),
    decreases ids.len(),
{
    if ids.len() > 0 {
        let rest = deduped(ids.drop_last());
        let all = deduped(ids);
        deduped_sound(ids.drop_last());
        assert forall|x: Seq<char>| #[trigger] all.contains(x) <==> ids.contains(x) by {
            assert(rest.contains(x) <==> ids.drop_last().contains(x));
            if rest.contains(x) {
                let i = choose|i: int| 0 <= i < rest.len() && rest[i] == x;
                assert(all[i] == x);
                let j = choose|j: int| 0 <= j < ids.len() - 1 && ids.drop_last()[j] == x;
                assert(ids[j] == x);
            }
            if x == ids.last() {
                assert(ids[ids.len() - 1] == x);
                if !rest.contains(x) {
                    assert(all[rest.len() as int] == x);
                }
            }
            if ids.contains(x) && x != ids.last() {
                let j = choose|j: int| 0 <= j < ids.len() && ids[j] == x;
                assert(ids.drop_last()[j] == x);
            }
            if all.contains(x) && x != ids.last() {
                let i = choose|i: int| 0 <= i < all.len() && all[i] == x;
                assert(i < rest.len() ==> rest[i] == x);
            }
        }
    }
}

/// Deduplicating twice is deduplicating once.
pub proof fn deduped_idempotent(ids: Seq<Seq<char>>)
    ensures
        deduped(deduped(ids)) == deduped(ids),
{
    deduped_sound(ids);
    deduped_fixed(deduped(ids));
}

/// A list without copies is not changed by deduplicating.
pub proof fn deduped_fixed(ids: Seq<Seq<char>>)
    requires
        ids.no_duplicates(),
    ensures
        deduped(ids) == ids,
    decreases ids.len(),
{
    if ids.len() > 0 {
        let rest = ids.drop_last();
        assert(rest.no_duplicates());
        deduped_fixed(rest);
        if rest.contains(ids.last()) {
            let i = choose|i: int| 0 <= i < rest.len() && rest[i] == ids.last();
            assert(ids[i] == ids[ids.len() - 1]);
        }
        assert(rest.push(ids.last()) =~= ids);
    }
}

/// Whether a list mentions one text before it mentions another, if it mentions that at all.
pub open spec fn mentioned_before(ids: Seq<Seq<char>>, a: Seq<char>, b: Seq<char>) -> bool {
    exists|p: int|
        0 <= p < ids.len() && #[trigger] ids[p] == a && !ids.take(p + 1).contains(b)
}

/// Deduplicating keeps the order of first mention.
pub proof fn deduped_order(ids: Seq<Seq<char>>, i: int, j: int)
    requires
        0 <= i < j < deduped(ids).len(),
    ensures
        mentioned_before(ids, deduped(ids)[i], deduped(ids)[j]),
    decreases ids.len(),
{
    let all = deduped(ids);
    let front = ids.drop_last();
    let rest = deduped(front);
    let (a, b) = (all[i], all[j]);
    deduped_sound(front);
    if j < rest.len() {
        deduped_order(front, i, j);
        let p = choose|p: int|
            0 <= p < front.len() && #[trigger] front[p] == a && !front.take(p + 1).contains(b);
        assert(ids[p] == a);
        assert(ids.take(p + 1) =~= front.take(p + 1));
    } else {
        assert(rest.contains(a)) by {
            assert(rest[i] == a);
        }
        assert(front.contains(a));
        let p = choose|p: int| 0 <= p < front.len() && front[p] == a;
        assert(ids[p] == a);
        assert forall|q: int| 0 <= q < p + 1 implies #[trigger] ids.take(p + 1)[q] != b by {
            assert(ids.take(p + 1)[q] == front[q]);
            if front[q] == b {
                assert(front.contains(b));
                assert(rest.contains(b));
            }
        }
    }
}

// ---------------------------------------------------------------------------------------------
// White space
// ---------------------------------------------------------------------------------------------

/// The characters with the Unicode `White_Space` property.
pub open spec fn is_space(c: char) -> bool {
    ||| '\u{9}' <= c <= '\u{d}'
    ||| c == '\u{20}'
    ||| c == '\u{85}'
    ||| c == '\u{a0}'
    ||| c == '\u{1680}'
    ||| '\u{2000}' <= c <= '\u{200a}'
    ||| c == '\u{2028}'
    ||| c == '\u{2029}'
    ||| c == '\u{202f}'
    ||| c == '\u{205f}'
    ||| c == '\u{3000}'
}

/// Whether a character is white space.
pub fn char_is_space(c: char) -> (res: bool)
    ensures
        res == is_space(c),
{
    ('\u{9}' <= c && c <= '\u{d}') || c == '\u{20}' || c == '\u{85}' || c == '\u{a0}' || c
        == '\u{1680}' || ('\u{2000}' <= c && c <= '\u{200a}') || c == '\u{2028}' || c == '\u{2029}'
        || c == '\u{202f}' || c == '\u{205f}' || c == '\u{3000}'
}

/// `s` without the white space at its start.
pub open spec fn trimmed_start(s: Seq<char>) -> Seq<char>
    decreases s.len(),
{
    if s.len() > 0 && is_space(s[0]) {
        trimmed_start(s.drop_first())
    } else {
        s
    }
}

/// `s` without the white space at its end.
pub open spec fn trimmed_end(s: Seq<char>) -> Seq<char>
    decreases s.len(),
{
    if s.len() > 0 && is_space(s.last()) {
        trimmed_end(s.drop_last())
    } else {
        s
    }
}

/// `s` without the white space at either end.
pub open spec fn trimmed(s: Seq<char>) -> Seq<char> {
    trimmed_end(trimmed_start(s))
}

/// The text without the white space at either end.
pub fn trim(s: &str) -> (res: String)
    ensures
        res@ == trimmed(s@),
{
    let chars = to_chars(s);
    let n: usize = chars.len();
    let mut from: usize = 0;
    assert(chars@.subrange(0, n as int) == s@);
    while from < n && char_is_space(chars[from])
        invariant
            n == chars@.len(),
            from <= n,
            trimmed_start(s@) == trimmed_start(chars@.subrange(from as int, n as int)),
        decreases n - from,
    {
        assert(chars@.subrange(from as int, n as int).drop_first() == chars@.subrange(
            from + 1,
            n as int,
        ));
        from = from + 1;
    }
    let mut to: usize = n;
    while from < to && char_is_space(chars[to - 1])
        invariant
            n == chars@.len(),
            from <= to <= n,
            trimmed_end(chars@.subrange(from as int, n as int)) == trimmed_end(
                chars@.subrange(from as int, to as int),
            ),
        decreases to - from,
    {
        assert(chars@.subrange(from as int, to as int).drop_last() == chars@.subrange(
            from as int,
            to - 1,
        ));
        to = to - 1;
    }
    from_range(chars.as_slice(), from, to)
}

/// A text that neither starts nor ends with white space.
pub open spec fn is_trimmed(s: Seq<char>) -> bool {
    s.len() > 0 ==> !is_space(s[0]) && !is_space(s.last())
}

/// Trimming leaves a text that neither starts nor ends with white space.
pub proof fn trimmed_is_trimmed(s: Seq<char>)
    ensures
        is_trimmed(trimmed(s)),
{
    trimmed_start_first(s);
    trimmed_end_first(trimmed_start(s));
}

proof fn trimmed_start_first(s: Seq<char>)
    ensures
        trimmed_start(s).len() > 0 ==> !is_space(trimmed_start(s)[0]),
    decreases s.len(),
{
    if s.len() > 0 && is_space(s[0]) {
        trimmed_start_first(s.drop_first());
    }
}

proof fn trimmed_end_first(s: Seq<char>)
    ensures
        trimmed_end(s).len() > 0 ==> trimmed_end(s)[0] == s[0] && !is_space(trimmed_end(s).last()),
        trimmed_end(s).len() <= s.len(),
    decreases s.len(),
{
    if s.len() > 0 && is_space(s.last()) {
        trimmed_end_first(s.drop_last());
    }
}

/// Trimming a text that neither starts nor ends with white space changes nothing.
pub proof fn trimmed_fixed(s: Seq<char>)
    requires
        is_trimmed(s),
    ensures
        trimmed(s) == s,
{
}

// ---------------------------------------------------------------------------------------------
// ASCII case
// ---------------------------------------------------------------------------------------------

/// An ASCII capital letter as its small letter; any other character as it is.
pub open spec fn ascii_lower(c: char) -> char {
    if 'A' <= c <= 'Z' {
        ((c as u32) + 32) as char
    } else {
        c
    }
}

/// Every ASCII capital letter of `s` replaced by its small letter.
pub open spec fn lowered(s: Seq<char>) -> Seq<char> {
    s.map_values(|c: char| ascii_lower(c))
}

/// The small letter of an ASCII capital letter; any other character unchanged.
pub fn char_lower(c: char) -> (res: char)
    ensures
        res == ascii_lower(c),
{
    if 'A' <= c && c <= 'Z' {
        let code: u32 = c as u32;
        ((code + 32) as u8) as char
    } else {
        c
    }
}

/// The text with its ASCII capital letters replaced by small letters.
pub fn to_lower(s: &str) -> (res: String)
    ensures
        res@ == lowered(s@),
{
    let chars = to_chars(s);
    let mut out = String::new();
    let mut i: usize = 0;
    while i < chars.len()
        invariant
            i <= chars.len(),
            out@ == lowered(chars@.take(i as int)),
        decreases chars.len() - i,
    {
        out.push(char_lower(chars[i]));
        assert(lowered(chars@.take(i + 1)) =~= lowered(chars@.take(i as int)).push(
            ascii_lower(chars@[i as int]),
        ));
        i = i + 1;
    }
    assert(chars@.take(chars@.len() as int) == chars@);
    out
}

/// Lowering twice is lowering once.
pub proof fn lowered_idempotent(s: Seq<char>)
    ensures
        lowered(lowered(s)) == lowered(s),
{
    assert forall|i: int| 0 <= i < s.len() implies lowered(lowered(s))[i] == lowered(s)[i] by {
        assert(ascii_lower(ascii_lower(s[i])) == ascii_lower(s[i]));
    }
    assert(lowered(lowered(s)) =~= lowered(s));
}

/// What `str::to_uppercase` makes of a text.
pub uninterp spec fn uppercased(s: Seq<char>) -> Seq<char>;

/// What `str::to_lowercase` makes of a text.
pub uninterp spec fn lowercased(s: Seq<char>) -> Seq<char>;

/// `str::to_uppercase` gives the Unicode upper case of the text, which depends on the text alone.
#[verifier::external_body]
pub(crate) fn to_uppercase(s: &str) -> (res: String)
    ensures
        res@ == uppercased(s@),
{
    s.to_uppercase()
}

/// `str::to_lowercase` gives the Unicode lower case of the text, which depends on the text alone.
#[verifier::external_body]
pub(crate) fn to_lowercase(s: &str) -> (res: String)
    ensures
        res@ == lowercased(s@),
{
    s.to_lowercase()
}

// ---------------------------------------------------------------------------------------------
// Searching
// ---------------------------------------------------------------------------------------------

/// Whether `s` starts with `p`.
pub open spec fn starts_with_spec(s: Seq<char>, p: Seq<char>) -> bool {
    p.len() <= s.len() && s.take(p.len() as int) == p
}

/// Whether `s` ends with `p`.
pub open spec fn ends_with_spec(s: Seq<char>, p: Seq<char>) -> bool {
    p.len() <= s.len() && s.skip(s.len() - p.len()) == p
}

/// Whether `p` stands in `s` from position `i` on.
pub open spec fn occurs_at(s: Seq<char>, p: Seq<char>, i: int) -> bool {
    0 <= i && i + p.len() <= s.len() && s.subrange(i, i + p.len()) == p
}

/// Whether `p` stands somewhere in `s`.
pub open spec fn occurs_in(s: Seq<char>, p: Seq<char>) -> bool {
    exists|i: int| #[trigger] occurs_at(s, p, i)
}

fn chars_at(s: &[char], p: &[char], at: usize) -> (res: bool)
    requires
        at <= s@.len(),
    ensures
        res == occurs_at(s@, p@, at as int),
{
    if p.len() > s.len() - at {
        return false;
    }
    let n: usize = s.len();
    let mut k: usize = 0;
    while k < p.len()
        invariant
            k <= p@.len(),
            n == s@.len(),
            at + p@.len() <= n,
            forall|j: int| 0 <= j < k ==> s@[at + j] == p@[j],
        decreases p@.len() - k,
    {
        if s[at + k] != p[k] {
            assert(s@.subrange(at as int, at + p@.len())[k as int] != p@[k as int]);
            return false;
        }
        k = k + 1;
    }
    assert(s@.subrange(at as int, at + p@.len()) =~= p@);
    true
}

/// Whether the text starts with the prefix.
pub fn starts_with(s: &str, p: &str) -> (res: bool)
    ensures
        res == starts_with_spec(s@, p@),
{
    let a = to_chars(s);
    let b = to_chars(p);
    chars_at(a.as_slice(), b.as_slice(), 0)
}

/// Whether the text ends with the suffix.
pub fn ends_with(s: &str, p: &str) -> (res: bool)
    ensures
        res == ends_with_spec(s@, p@),
{
    let a = to_chars(s);
    let b = to_chars(p);
    if b.len() > a.len() {
        return false;
    }
    let at: usize = a.len() - b.len();
    assert(a@.skip(at as int) =~= a@.subrange(at as int, at + b@.len()));
    chars_at(a.as_slice(), b.as_slice(), at)
}

/// Whether the pattern stands somewhere in the text.
pub fn contains(s: &str, p: &str) -> (res: bool)
    ensures
        res == occurs_in(s@, p@),
{
    let a = to_chars(s);
    let b = to_chars(p);
    let mut i: usize = 0;
    while i < a.len()
        invariant
            i <= a@.len(),
            a@ == s@,
            b@ == p@,
            forall|j: int| 0 <= j < i ==> !(#[trigger] occurs_at(s@, p@, j)),
        decreases a@.len() - i,
    {
        if chars_at(a.as_slice(), b.as_slice(), i) {
            return true;
        }
        i = i + 1;
    }
    let last = chars_at(a.as_slice(), b.as_slice(), i);
    last
}

/// A text with each occurrence of a pattern replaced, from the left, none of them overlapping.
pub open spec fn replaced(s: Seq<char>, from: Seq<char>, to: Seq<char>) -> Seq<char>
    decreases s.len(),
{
    if from.len() == 0 || s.len() < from.len() {
        s
    } else if s.take(from.len() as int) == from {
        to + replaced(s.skip(from.len() as int), from, to)
    } else {
        seq![s[0]] + replaced(s.skip(1), from, to)
    }
}

/// The text with each occurrence of a pattern replaced.
pub fn replace(s: &str, from: &str, to: &str) -> (res: String)
    requires
        from@.len() > 0,
    ensures
        res@ == replaced(s@, from@, to@),
{
    let a = to_chars(s);
    let b = to_chars(from);
    let n: usize = a.len();
    let m: usize = b.len();
    let mut out = String::new();
    let mut i: usize = 0;
    assert(a@.skip(0) =~= a@);
    assert(out@ + replaced(s@, from@, to@) =~= replaced(s@, from@, to@));
    while i < n
        invariant
            i <= n,
            n == a@.len(),
            m == b@.len(),
            m > 0,
            a@ == s@,
            b@ == from@,
            out@ + replaced(s@.skip(i as int), from@, to@) == replaced(s@, from@, to@),
        decreases n - i,
    {
        let ghost rest = s@.skip(i as int);
        let ghost before = out@;
        if chars_at(a.as_slice(), b.as_slice(), i) {
            assert(rest.take(m as int) =~= s@.subrange(i as int, i + m));
            assert(rest.skip(m as int) =~= s@.skip(i + m));
            out = join2(out.as_str(), to);
            assert(out@ + replaced(s@.skip(i + m), from@, to@) =~= before + replaced(
                rest,
                from@,
                to@,
            ));
            i = i + m;
        } else {
            proof {
                if rest.len() >= m {
                    assert(rest.take(m as int) =~= s@.subrange(i as int, i + m));
                }
            }
            assert(rest.skip(1) =~= s@.skip(i + 1));
            out.push(a[i]);
            proof {
                if rest.len() < m {
                    assert(replaced(rest.skip(1), from@, to@) =~= rest.skip(1));
                    assert(rest =~= seq![rest[0]] + rest.skip(1));
                }
                assert(replaced(rest, from@, to@) =~= seq![a@[i as int]] + replaced(
                    rest.skip(1),
                    from@,
                    to@,
                ));
                assert(out@ + replaced(rest.skip(1), from@, to@) =~= before + replaced(
                    rest,
                    from@,
                    to@,
                ));
            }
            i = i + 1;
        }
    }
    assert(s@.skip(i as int) =~= Seq::<char>::empty());
    assert(out@ + replaced(s@.skip(i as int), from@, to@) =~= out@);
    out
}

/// A text in which the pattern does not occur stays as it is.
pub proof fn replaced_nothing(s: Seq<char>, from: Seq<char>, to: Seq<char>)
    requires
        !occurs_in(s, from),
    ensures
        replaced(s, from, to) == s,
    decreases s.len(),
{
    if from.len() > 0 && s.len() >= from.len() {
        assert(!occurs_at(s, from, 0));
        assert(s.subrange(0, from.len() as int) =~= s.take(from.len() as int));
        let rest = s.skip(1);
        assert(!occurs_in(rest, from)) by {
            if occurs_in(rest, from) {
                let i = choose|i: int| occurs_at(rest, from, i);
                assert(rest.subrange(i, i + from.len()) =~= s.subrange(i + 1, i + 1 + from.len()));
                assert(occurs_at(s, from, i + 1));
            }
        }
        replaced_nothing(rest, from, to);
        assert(seq![s[0]] + rest =~= s);
    }
}

/// The position of the first `c` in `s`, or the length of `s` where there is none.
pub open spec fn first_index(s: Seq<char>, c: char) -> int
    decreases s.len(),
{
    if s.len() == 0 || s[0] == c {
        0
    } else {
        1 + first_index(s.drop_first(), c)
    }
}

/// The first index is where `c` stands first.
pub proof fn first_index_meaning(s: Seq<char>, c: char)
    ensures
        0 <= first_index(s, c) <= s.len(),
        first_index(s, c) < s.len() ==> s[first_index(s, c)] == c,
        forall|j: int| 0 <= j < first_index(s, c) ==> s[j] != c,
    decreases s.len(),
{
    if s.len() > 0 && s[0] != c {
        first_index_meaning(s.drop_first(), c);
        assert forall|j: int| 0 <= j < first_index(s, c) implies s[j] != c by {
            if j > 0 {
                assert(s.drop_first()[j - 1] == s[j]);
            }
        }
    }
}

/// A position that holds `c` with no `c` before it is the first index.
pub proof fn first_index_is(s: Seq<char>, c: char, i: int)
    requires
        0 <= i <= s.len(),
        i < s.len() ==> s[i] == c,
        forall|j: int| 0 <= j < i ==> s[j] != c,
    ensures
        first_index(s, c) == i,
{
    first_index_meaning(s, c);
    let k = first_index(s, c);
    if k < i {
        assert(s[k] != c);
    }
    if i < k {
        assert(s[i] != c);
    }
}

/// The position of the first `c`, or the length where there is none.
pub fn find_char(s: &[char], c: char) -> (res: usize)
    ensures
        res == first_index(s@, c),
        res <= s@.len(),
{
    let mut i: usize = 0;
    while i < s.len() && s[i] != c
        invariant
            i <= s@.len(),
            forall|j: int| 0 <= j < i ==> s@[j] != c,
        decreases s@.len() - i,
    {
        i = i + 1;
    }
    proof {
        first_index_is(s@, c, i as int);
    }
    i
}

// ---------------------------------------------------------------------------------------------
// Numbers
// ---------------------------------------------------------------------------------------------

/// The character of a decimal digit.
pub open spec fn digit_char(d: nat) -> char {
    (48 + d) as char
}

/// The decimal notation of a number, without leading zeros.
pub open spec fn decimal(n: nat) -> Seq<char>
    decreases n,
{
    if n < 10 {
        seq![digit_char(n)]
    } else {
        decimal(n / 10).push(digit_char(n % 10))
    }
}

/// The decimal notation of a signed number.
pub open spec fn decimal_signed(n: int) -> Seq<char> {
    if n < 0 {
        seq!['-'] + decimal((-n) as nat)
    } else {
        decimal(n as nat)
    }
}

fn push_decimal(out: &mut String, n: u64)
    ensures
        final(out)@ == old(out)@ + decimal(n as nat),
    decreases n,
{
    if n >= 10 {
        push_decimal(out, n / 10);
    }
    let d: u8 = (n % 10) as u8;
    out.push((48 + d) as char);
    proof {
        assert(digit_char((n % 10) as nat) == (48 + d) as char);
        if n < 10 {
            assert(decimal(n as nat) == seq![digit_char(n as nat)]);
        } else {
            assert(decimal(n as nat) == decimal((n / 10) as nat).push(digit_char((n % 10) as nat)));
        }
        assert(out@ =~= old(out)@ + decimal(n as nat));
    }
}

/// The decimal notation of a number.
pub fn u64_text(n: u64) -> (res: String)
    ensures
        res@ == decimal(n as nat),
{
    let mut out = String::new();
    push_decimal(&mut out, n);
    assert(Seq::<char>::empty() + decimal(n as nat) =~= decimal(n as nat));
    out
}

/// The decimal notation of the number.
pub fn i64_text(n: i64) -> (res: String)
    ensures
        res@ == decimal_signed(n as int),
{
    if n < 0 {
        let magnitude: u64 = (-(n + 1)) as u64 + 1;
        let digits = u64_text(magnitude);
        proof {
            reveal_strlit("-");
            assert("-"@ =~= seq!['-']);
        }
        join2("-", digits.as_str())
    } else {
        u64_text(n as u64)
    }
}

/// Whether a character is a decimal digit.
pub open spec fn is_digit(c: char) -> bool {
    '0' <= c <= '9'
}

/// The value of a sequence of decimal digits.
pub open spec fn digits_value(s: Seq<char>) -> nat
    decreases s.len(),
{
    if s.len() == 0 {
        0
    } else {
        (digits_value(s.drop_last()) * 10 + (s.last() as u32 - 48)) as nat
    }
}

/// The digits of an unsigned numeral: all of it, without one leading `+`.
pub open spec fn numeral_digits(s: Seq<char>) -> Seq<char> {
    if s.len() > 0 && s[0] == '+' {
        s.drop_first()
    } else {
        s
    }
}

/// The number a numeral stands for, where it is one and is at most `max`.
pub open spec fn parsed(s: Seq<char>, max: nat) -> Option<nat> {
    let d = numeral_digits(s);
    if d.len() > 0 && (forall|i: int| 0 <= i < d.len() ==> is_digit(#[trigger] d[i]))
        && digits_value(d) <= max {
        Some(digits_value(d))
    } else {
        None
    }
}

proof fn digits_value_monotone(s: Seq<char>, i: int)
    requires
        0 <= i <= s.len(),
        forall|j: int| 0 <= j < s.len() ==> is_digit(#[trigger] s[j]),
    ensures
        digits_value(s.take(i)) <= digits_value(s),
    decreases s.len(),
{
    if i < s.len() {
        digits_value_monotone(s.drop_last(), i);
        assert(s.drop_last().take(i) =~= s.take(i));
        assert(is_digit(s.last()));
    } else {
        assert(s.take(i) =~= s);
    }
}

/// Reads an unsigned decimal numeral, which may start with `+`, with value at most `max`.
pub fn parse_unsigned(s: &str, max: u64) -> (res: Option<u64>)
    ensures
        res is Some <==> parsed(s@, max as nat) is Some,
        res is Some ==> res->0 == parsed(s@, max as nat)->0,
{
    let chars = to_chars(s);
    let start: usize = if chars.len() > 0 && chars[0] == '+' { 1 } else { 0 };
    let ghost d = numeral_digits(s@);
    assert(d =~= chars@.skip(start as int));
    if chars.len() == start {
        return None;
    }
    let mut v: u64 = 0;
    let mut i: usize = start;
    while i < chars.len()
        invariant
            start <= i <= chars@.len(),
            d == chars@.skip(start as int),
            d == numeral_digits(s@),
            v == digits_value(d.take(i - start)),
            v <= max,
            forall|j: int| 0 <= j < i - start ==> is_digit(#[trigger] d[j]),
        decreases chars@.len() - i,
    {
        let c = chars[i];
        assert(d[i - start] == c);
        if c < '0' || c > '9' {
            assert(!is_digit(d[i - start]));
            return None;
        }
        let digit: u64 = (c as u32 - 48) as u64;
        proof {
            assert(d.take(i - start + 1).drop_last() =~= d.take(i - start));
            assert(digits_value(d.take(i - start + 1)) == v * 10 + digit);
        }
        if v > (max - (if digit <= max { digit } else { max })) / 10 || digit > max {
            proof {
                assert(v * 10 + digit > max);
                if forall|j: int| 0 <= j < d.len() ==> is_digit(#[trigger] d[j]) {
                    digits_value_monotone(d, i - start + 1);
                }
            }
            return None;
        }
        v = v * 10 + digit;
        i = i + 1;
    }
    assert(d.take(d.len() as int) =~= d);
    Some(v)
}

/// Reading the decimal notation of a number gives the number back.
pub proof fn decimal_reads_back(n: nat, max: nat)
    requires
        n <= max,
    ensures
        parsed(decimal(n), max) == Some(n),
{
    decimal_digits(n);
    let d = decimal(n);
    assert(is_digit(d[0]));
    assert(numeral_digits(d) == d);
}

/// The decimal notation has at least one character, and only digits, with the value of the number.
pub proof fn decimal_digits(n: nat)
    ensures
        decimal(n).len() > 0,
        forall|i: int| 0 <= i < decimal(n).len() ==> is_digit(#[trigger] decimal(n)[i]),
        digits_value(decimal(n)) == n,
    decreases n,
{
    if n < 10 {
        assert(decimal(n).drop_last() =~= Seq::<char>::empty());
        assert(digits_value(Seq::<char>::empty()) == 0);
    } else {
        decimal_digits(n / 10);
        assert(decimal(n).drop_last() =~= decimal(n / 10));
    }
}

/// A number below one hundred with two digits.
pub open spec fn two_digits(n: nat) -> Seq<char> {
    seq![digit_char(n / 10), digit_char(n % 10)]
}

// ---------------------------------------------------------------------------------------------
// What the operations come to
// ---------------------------------------------------------------------------------------------

/// A text that may be missing is the text where it is there, and a list has its texts in order.
pub proof fn texts_in_full(s: String, v: Seq<String>, i: int)
    ensures
        opt_view(Some(s)) == Some(s@),
        opt_view(None) is None,
        list_view(v).len() == v.len(),
        0 <= i < v.len() ==> list_view(v)[i] == v[i]@,
{
}

/// Among the ASCII characters the white space is the blank and what lies between tab and carriage
/// return; beyond them it is the Unicode spaces and separators.
pub proof fn white_space(c: char)
    ensures
        (c as u32) < 128 ==> (is_space(c) <==> c as u32 == 32 || 9 <= c as u32 <= 13),
        c as u32 >= 128 ==> (is_space(c) <==> c as u32 == 0x85 || c as u32 == 0xa0 || c as u32 == 0x1680
            || 0x2000 <= c as u32 <= 0x200a || c as u32 == 0x2028 || c as u32 == 0x2029 || c as u32
            == 0x202f || c as u32 == 0x205f || c as u32 == 0x3000),
{
}

/// Trimming takes white space off both ends, and nothing else.
pub proof fn trimming_takes_white_space_off(s: Seq<char>)
    ensures
        exists|from: int, to: int|
            {
                &&& 0 <= from <= to <= s.len()
                &&& trimmed(s) == #[trigger] s.subrange(from, to)
                &&& forall|i: int| 0 <= i < from || to <= i < s.len() ==> is_space(#[trigger] s[i])
            },
        trimmed(s).len() > 0 ==> !is_space(trimmed(s)[0]) && !is_space(trimmed(s).last()),
{
    trimmed_is_trimmed(s);
    let from = lemma_trimmed_start_at(s);
    let head = s.skip(from);
    let n = lemma_trimmed_end_at(head);
    assert(head.take(n) =~= s.subrange(from, from + n));
    assert forall|i: int| 0 <= i < from || from + n <= i < s.len() implies is_space(#[trigger] s[i]) by {
        if i >= from + n {
            assert(head[i - from] == s[i]);
        }
    }
}

proof fn lemma_trimmed_start_at(s: Seq<char>) -> (from: int)
    ensures
        0 <= from <= s.len(),
        trimmed_start(s) == s.skip(from),
        forall|i: int| 0 <= i < from ==> is_space(#[trigger] s[i]),
    decreases s.len(),
{
    if s.len() > 0 && is_space(s[0]) {
        let rest = s.drop_first();
        let k = lemma_trimmed_start_at(rest);
        assert(rest.skip(k) =~= s.skip(k + 1));
        assert forall|i: int| 0 <= i < k + 1 implies is_space(#[trigger] s[i]) by {
            if i > 0 {
                assert(rest[i - 1] == s[i]);
            }
        }
        k + 1
    } else {
        assert(s.skip(0) =~= s);
        0
    }
}

proof fn lemma_trimmed_end_at(s: Seq<char>) -> (to: int)
    ensures
        0 <= to <= s.len(),
        trimmed_end(s) == s.take(to),
        forall|i: int| to <= i < s.len() ==> is_space(#[trigger] s[i]),
    decreases s.len(),
{
    if s.len() > 0 && is_space(s.last()) {
        let rest = s.drop_last();
        let k = lemma_trimmed_end_at(rest);
        assert(rest.take(k) =~= s.take(k));
        assert forall|i: int| k <= i < s.len() implies is_space(#[trigger] s[i]) by {
            if i < rest.len() {
                assert(rest[i] == s[i]);
            }
        }
        k
    } else {
        assert(s.take(s.len() as int) =~= s);
        s.len() as int
    }
}

/// The ASCII capital letters become the small ones, and every other character stays.
pub proof fn capitals_become_small(s: Seq<char>, i: int)
    requires
        0 <= i < s.len(),
    ensures
        lowered(s).len() == s.len(),
        65 <= s[i] as u32 <= 90 ==> lowered(s)[i] as u32 == s[i] as u32 + 32,
        !(65 <= s[i] as u32 <= 90) ==> lowered(s)[i] == s[i],
{
}

/// A text starts with, ends with and holds the parts that it is put together from.
pub proof fn parts_are_found(a: Seq<char>, p: Seq<char>, b: Seq<char>)
    ensures
        starts_with_spec(p + b, p),
        ends_with_spec(a + p, p),
        occurs_in(a + p + b, p),
{
    assert((p + b).take(p.len() as int) =~= p);
    assert((a + p).skip((a + p).len() - p.len()) =~= p);
    assert((a + p + b).subrange(a.len() as int, (a.len() + p.len()) as int) =~= p);
    assert(occurs_at(a + p + b, p, a.len() as int));
}

/// A text that starts with, ends with or holds a part can be put together from it.
pub proof fn found_parts_are_there(s: Seq<char>, p: Seq<char>)
    ensures
        starts_with_spec(s, p) ==> exists|b: Seq<char>| s == #[trigger] (p + b),
        ends_with_spec(s, p) ==> exists|a: Seq<char>| s == #[trigger] (a + p),
        occurs_in(s, p) ==> exists|a: Seq<char>, b: Seq<char>| s == #[trigger] (a + p + b),
{
    if starts_with_spec(s, p) {
        assert(s =~= p + s.skip(p.len() as int));
    }
    if ends_with_spec(s, p) {
        assert(s =~= s.take(s.len() - p.len()) + p);
    }
    if occurs_in(s, p) {
        let i = choose|i: int| #[trigger] occurs_at(s, p, i);
        assert(s =~= s.take(i) + p + s.skip(i + p.len()));
    }
}

/// A part is replaced wherever it comes up, from the front, and what is put in its place is not looked
/// at again.
pub proof fn replacing_from_the_front(s: Seq<char>, from: Seq<char>, to: Seq<char>, c: char)
    requires
        from.len() > 0,
    ensures
        replaced(from + s, from, to) == to + replaced(s, from, to),
        !starts_with_spec(seq![c] + s, from) ==> replaced(seq![c] + s, from, to) == seq![c] + replaced(
            s,
            from,
            to,
        ),
        replaced(Seq::empty(), from, to) == Seq::<char>::empty(),
{
    assert((from + s).take(from.len() as int) =~= from);
    assert((from + s).skip(from.len() as int) =~= s);
    let t = seq![c] + s;
    assert(t.skip(1) =~= s);
    if t.len() < from.len() {
        replaced_short(s, from, to);
    }
}

proof fn replaced_short(s: Seq<char>, from: Seq<char>, to: Seq<char>)
    requires
        s.len() < from.len(),
    ensures
        replaced(s, from, to) == s,
{
}

/// A numeral has its digits in the order of their weight, from `0` to `9` each, and no zero in front.
pub proof fn numerals_digit_by_digit(n: nat, d: nat)
    requires
        d < 10,
    ensures
        decimal(d) == seq![(('0' as u32) + d) as char],
        n > 0 ==> decimal(10 * n + d) == decimal(n).push((('0' as u32) + d) as char),
        decimal_signed(n as int) == decimal(n),
        n > 0 ==> decimal_signed(-n) == seq!['-'] + decimal(n),
{
}

/// A number is read from its digits, with or without a plus sign in front. Without a digit, with
/// anything else in it, or above the limit there is none.
pub proof fn numbers_digit_by_digit(s: Seq<char>, c: char, max: nat)
    ensures
        parsed(Seq::empty(), max) is None,
        parsed(seq!['+'], max) is None,
        (s.len() == 0 || s[0] != '+') ==> parsed(seq!['+'] + s, max) == parsed(s, max),
        '0' <= c <= '9' && c as u32 - 48 <= max ==> parsed(seq![c], max) == Some(
            (c as u32 - 48) as nat,
        ),
        '0' <= c <= '9' && s.len() > 0 && s[0] != '+' ==> parsed(s.push(c), max) == (match parsed(
            s,
            max,
        ) {
            Some(v) => if v * 10 + (c as u32 - 48) <= max {
                Some((v * 10 + (c as u32 - 48)) as nat)
            } else {
                None
            },
            None => None,
        }),
        !('0' <= c <= '9') && s.len() > 0 ==> parsed(s.push(c), max) is None,
{
    let none = Seq::<char>::empty();
    assert(numeral_digits(none) =~= none);
    assert(numeral_digits(seq!['+']) =~= none);
    if s.len() == 0 || s[0] != '+' {
        assert((seq!['+'] + s).drop_first() =~= s);
    }
    let one = seq![c];
    assert(one.drop_last() =~= none);
    assert(digits_value(none) == 0);
    if '0' <= c <= '9' {
        assert(numeral_digits(one) == one);
        assert(digits_value(one) == (c as u32 - 48) as nat);
    }
    if s.len() > 0 {
        let t = s.push(c);
        assert(t.drop_last() =~= s);
        assert(t.last() == c);
        let d = numeral_digits(t);
        if s[0] != '+' {
            assert(d == t);
            assert(numeral_digits(s) == s);
            if '0' <= c <= '9' {
                assert(digits_value(t) == digits_value(s) * 10 + (c as u32 - 48));
                if parsed(s, max) is Some {
                    assert forall|i: int| 0 <= i < t.len() implies is_digit(#[trigger] t[i]) by {
                        if i < s.len() {
                            assert(t[i] == s[i]);
                        }
                    }
                } else if parsed(t, max) is Some {
                    assert forall|i: int| 0 <= i < s.len() implies is_digit(#[trigger] s[i]) by {
                        assert(t[i] == s[i]);
                    }
                }
            }
        }
        if !('0' <= c <= '9') {
            assert(d.len() > 0 && d.last() == c);
            assert(!is_digit(d[d.len() - 1]));
        }
    }
}

/// A number below a hundred in two digits.
pub proof fn two_digits_of_a_number(n: nat)
    requires
        n < 100,
    ensures
        two_digits(n).len() == 2,
        n >= 10 ==> two_digits(n) == decimal(n),
        n < 10 ==> two_digits(n) == seq!['0'] + decimal(n),
{
    reveal_with_fuel(decimal, 2);
    if n >= 10 {
        assert(two_digits(n) =~= decimal(n));
    } else {
        assert(two_digits(n) =~= seq!['0'] + decimal(n));
    }
}

/// A text is added to a list without copies at its end, unless the list has it.
pub proof fn later_copies_are_left_out(ids: Seq<Seq<char>>, id: Seq<char>)
    ensures
        deduped(Seq::empty()).len() == 0,
        ids.contains(id) ==> deduped(ids.push(id)) == deduped(ids),
        !ids.contains(id) ==> deduped(ids.push(id)) == deduped(ids).push(id),
{
    assert(ids.push(id).drop_last() =~= ids);
    deduped_sound(ids);
    assert(deduped(ids).contains(id) <==> ids.contains(id));
}

} // verus!
