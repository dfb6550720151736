//! Character-level text model shared by the annotation parser: whitespace
//! classes, trimming and splitting off the first word of a line.
use vstd::prelude::*;

verus! {

/// ASCII whitespace: space, tab, line feed, form feed and carriage return.
pub open spec fn is_ascii_space(c: char) -> bool {
    c == ' ' || c == '\t' || c == '\n' || c == '\x0C' || c == '\r'
}

/// Unicode `White_Space` property, the class removed by trimming.
pub open spec fn is_space(c: char) -> bool {
    let u = c as u32;
    (9 <= u && u <= 13) || u == 0x20 || u == 0x85 || u == 0xA0 || u == 0x1680 || (0x2000 <= u
        && u <= 0x200A) || u == 0x2028 || u == 0x2029 || u == 0x202F || u == 0x205F || u == 0x3000
}

/// Every character of `s` is whitespace.
pub open spec fn is_blank(s: Seq<char>) -> bool {
    forall|i: int| 0 <= i < s.len() ==> is_space(#[trigger] s[i])
}

/// `s` without its leading whitespace.
pub open spec fn trimmed_start(s: Seq<char>) -> Seq<char>
    decreases s.len(),
{
    if s.len() > 0 && is_space(s[0]) {
        trimmed_start(s.drop_first())
    } else {
        s
    }
}

/// `s` without its trailing whitespace.
pub open spec fn trimmed_end(s: Seq<char>) -> Seq<char>
    decreases s.len(),
{
    if s.len() > 0 && is_space(s.last()) {
        trimmed_end(s.drop_last())
    } else {
        s
    }
}

/// `s` without leading and trailing whitespace.
pub open spec fn trimmed(s: Seq<char>) -> Seq<char> {
    trimmed_end(trimmed_start(s))
}

/// Splits `s` at its first ASCII whitespace character, which belongs to
/// neither part; `None` when there is none.
pub open spec fn split_word(s: Seq<char>) -> Option<(Seq<char>, Seq<char>)>
    decreases s.len(),
{
    if s.len() == 0 {
        None
    } else if is_ascii_space(s[0]) {
        Some((Seq::empty(), s.drop_first()))
    } else {
        match split_word(s.drop_first()) {
            Some(p) => Some((seq![s[0]] + p.0, p.1)),
            None => None,
        }
    }
}

/// The first whitespace-delimited word of `s` and the text after its
/// delimiter: leading whitespace is skipped, and a word that runs to the end
/// of `s` leaves an empty rest. `None` when `s` is blank.
pub open spec fn next_word(s: Seq<char>) -> Option<(Seq<char>, Seq<char>)> {
    let t = trimmed_start(s);
    if t.len() == 0 {
        None
    } else {
        match split_word(t) {
            Some(p) => Some(p),
            None => Some((t, Seq::empty())),
        }
    }
}

/// View of an optional pair of string slices.
pub open spec fn pair_view(r: Option<(&str, &str)>) -> Option<(Seq<char>, Seq<char>)> {
    match r {
        Some(p) => Some((p.0@, p.1@)),
        None => None,
    }
}

pub(crate) proof fn lemma_trimmed_start_skip(s: Seq<char>, i: int)
    requires
        0 <= i <= s.len(),
        forall|j: int| 0 <= j < i ==> is_space(#[trigger] s[j]),
    ensures
        trimmed_start(s) == trimmed_start(s.subrange(i, s.len() as int)),
    decreases i,
{
    if i > 0 {
        assert(s.drop_first().subrange(i - 1, s.len() - 1) =~= s.subrange(i, s.len() as int));
        assert forall|j: int| 0 <= j < i - 1 implies is_space(#[trigger] s.drop_first()[j]) by {
            assert(s.drop_first()[j] == s[j + 1]);
        }
        lemma_trimmed_start_skip(s.drop_first(), i - 1);
    } else {
        assert(s.subrange(0, s.len() as int) =~= s);
    }
}

proof fn lemma_trimmed_end_skip(s: Seq<char>, k: int)
    requires
        0 <= k <= s.len(),
        forall|j: int| k <= j < s.len() ==> is_space(#[trigger] s[j]),
    ensures
        trimmed_end(s) == trimmed_end(s.subrange(0, k)),
    decreases s.len() - k,
{
    if k < s.len() {
        assert(s.drop_last().subrange(0, k) =~= s.subrange(0, k));
        assert forall|j: int| k <= j < s.len() - 1 implies is_space(#[trigger] s.drop_last()[j]) by {
            assert(s.drop_last()[j] == s[j]);
        }
        lemma_trimmed_end_skip(s.drop_last(), k);
    } else {
        assert(s.subrange(0, s.len() as int) =~= s);
    }
}

pub(crate) proof fn lemma_trimmed_end_keeps_first(s: Seq<char>)
    requires
        s.len() > 0,
        !is_space(s[0]),
    ensures
        trimmed_end(s).len() > 0,
        trimmed_end(s)[0] == s[0],
    decreases s.len(),
{
    if is_space(s.last()) {
        assert(s.len() > 1);
        assert(s.drop_last()[0] == s[0]);
        lemma_trimmed_end_keeps_first(s.drop_last());
    }
}

pub(crate) proof fn lemma_split_word_at(s: Seq<char>, i: int)
    requires
        0 <= i <= s.len(),
        forall|j: int| 0 <= j < i ==> !is_ascii_space(#[trigger] s[j]),
    ensures
        i < s.len() && is_ascii_space(s[i]) ==> split_word(s) == Some(
            (s.subrange(0, i), s.subrange(i + 1, s.len() as int)),
        ),
        i == s.len() ==> split_word(s) is None,
    decreases i,
{
    if i > 0 {
        let t = s.drop_first();
        assert forall|j: int| 0 <= j < i - 1 implies !is_ascii_space(#[trigger] t[j]) by {
            assert(t[j] == s[j + 1]);
        }
        lemma_split_word_at(t, i - 1);
        assert(!is_ascii_space(s[0]));
        if i < s.len() && is_ascii_space(s[i]) {
            assert(t[i - 1] == s[i]);
            assert(seq![s[0]] + t.subrange(0, i - 1) =~= s.subrange(0, i));
            assert(t.subrange(i, t.len() as int) =~= s.subrange(i + 1, s.len() as int));
        }
    } else if s.len() > 0 {
        assert(s.subrange(0, 0) =~= Seq::<char>::empty());
        assert(s.subrange(1, s.len() as int) =~= s.drop_first());
    }
}

/// Whether `c` is ASCII whitespace.
pub fn char_is_ascii_space(c: char) -> (r: bool)
    ensures
        r == is_ascii_space(c),
{
    c == ' ' || c == '\t' || c == '\n' || c == '\x0C' || c == '\r'
}

/// Whether `c` has the Unicode `White_Space` property.
pub fn char_is_space(c: char) -> (r: bool)
    ensures
        r == is_space(c),
{
    let u = c as u32;
    (9 <= u && u <= 13) || u == 0x20 || u == 0x85 || u == 0xA0 || u == 0x1680 || (0x2000 <= u
        && u <= 0x200A) || u == 0x2028 || u == 0x2029 || u == 0x202F || u == 0x205F || u == 0x3000
}

/// `s` without its leading whitespace.
pub fn trim_start_str(s: &str) -> (r: &str)
    ensures
        r@ == trimmed_start(s@),
{
    let n = s.unicode_len();
    let mut i: usize = 0;
    while i < n && char_is_space(s.get_char(i))
        invariant
            n == s@.len(),
            i <= n,
            forall|j: int| 0 <= j < i ==> is_space(#[trigger] s@[j]),
        decreases n - i,
    {
        i = i + 1;
    }
    proof {
        lemma_trimmed_start_skip(s@, i as int);
    }
    s.substring_char(i, n)
}

/// `s` without leading and trailing whitespace.
pub fn trim_str(s: &str) -> (r: &str)
    ensures
        r@ == trimmed(s@),
{
    let t = trim_start_str(s);
    let n = t.unicode_len();
    let mut k: usize = n;
    while k > 0 && char_is_space(t.get_char(k - 1))
        invariant
            n == t@.len(),
            k <= n,
            forall|j: int| k <= j < n ==> is_space(#[trigger] t@[j]),
        decreases k,
    {
        k = k - 1;
    }
    proof {
        lemma_trimmed_end_skip(t@, k as int);
        if k > 0 {
            assert(t@.subrange(0, k as int).last() == t@[k - 1]);
        }
    }
    t.substring_char(0, k)
}

/// Whether `a` and `b` hold the same characters.
pub fn str_eq(a: &str, b: &str) -> (r: bool)
    ensures
        r == (a@ == b@),
{
    let n = a.unicode_len();
    if n != b.unicode_len() {
        return false;
    }
    let mut i: usize = 0;
    while i < n
        invariant
            n == a@.len(),
            n == b@.len(),
            i <= n,
            forall|j: int| 0 <= j < i ==> a@[j] == b@[j],
        decreases n - i,
    {
        if a.get_char(i) != b.get_char(i) {
            return false;
        }
        i = i + 1;
    }
    assert(a@ =~= b@);
    true
}

/// Splits `val` at its first ASCII whitespace character.
pub fn get_word(val: &str) -> (r: Option<(&str, &str)>)
    ensures
        pair_view(r) == split_word(val@),
{
    let n = val.unicode_len();
    let mut i: usize = 0;
    while i < n
        invariant
            n == val@.len(),
            i <= n,
            forall|j: int| 0 <= j < i ==> !is_ascii_space(#[trigger] val@[j]),
        decreases n - i,
    {
        if char_is_ascii_space(val.get_char(i)) {
            proof {
                lemma_split_word_at(val@, i as int);
            }
            return Some((val.substring_char(0, i), val.substring_char(i + 1, n)));
        }
        i = i + 1;
    }
    proof {
        lemma_split_word_at(val@, i as int);
    }
    None
}

/// The first word of `s` after its leading whitespace, and the text after
/// the word's delimiter.
pub fn next_word_str(s: &str) -> (r: Option<(&str, &str)>)
    ensures
        pair_view(r) == next_word(s@),
{
    let t = trim_start_str(s);
    if t.unicode_len() == 0 {
        return None;
    }
    match get_word(t) {
        Some(p) => Some(p),
        None => {
            let n = t.unicode_len();
            Some((t, t.substring_char(n, n)))
        },
    }
}

} // verus!
