//! Characters, decimal numerals, frame-indexed symbols and name lookups.
use vstd::prelude::*;

verus! {

/// The characters of the string, in order.
pub fn chars_of(s: &str) -> (r: Vec<char>)
    ensures
        r@ == s@,
{
    broadcast use vstd::string::group_string_axioms;

    let mut v: Vec<char> = Vec::new();
    let mut it = s.chars();
    loop
        invariant
            v@ + vstd::std_specs::iter::IteratorSpec::remaining(&it) == s@,
            vstd::std_specs::iter::IteratorSpec::decrease(&it) is Some,
        ensures
            v@ == s@,
        decreases vstd::std_specs::iter::IteratorSpec::decrease(&it)->0,
    {
        match it.next() {
            Some(c) => {
                v.push(c);
                assert(v@ + vstd::std_specs::iter::IteratorSpec::remaining(&it) =~= s@);
            },
            None => {
                assert(v@ =~= s@);
                break;
            },
        }
    }
    v
}

/// Relies on `FromIterator<&char>` for `String`: the string of the characters, in order.
#[verifier::external_body]
pub(crate) fn string_of(v: &Vec<char>) -> (r: String)
    ensures
        r@ == v@,
{
    String::from_iter(v)
}

/// The character that separates a state variable's name from its frame index.
pub const VARIABLE_FRAME_DELIMITER: char = '@';

pub open spec fn digit_char(d: nat) -> char {
    if d == 0 {
        '0'
    } else if d == 1 {
        '1'
    } else if d == 2 {
        '2'
    } else if d == 3 {
        '3'
    } else if d == 4 {
        '4'
    } else if d == 5 {
        '5'
    } else if d == 6 {
        '6'
    } else if d == 7 {
        '7'
    } else if d == 8 {
        '8'
    } else {
        '9'
    }
}

pub open spec fn is_digit(c: char) -> bool {
    '0' <= c <= '9'
}

pub open spec fn digit_value(c: char) -> nat {
    (c as u32 - '0' as u32) as nat
}

/// The decimal numeral of `n`, without leading zeros.
pub open spec fn decimal_text(n: nat) -> Seq<char>
    decreases n,
{
    if n < 10 {
        seq![digit_char(n)]
    } else {
        decimal_text(n / 10).push(digit_char(n % 10))
    }
}

/// The value of a sequence of decimal digits.
pub open spec fn digits_value(d: Seq<char>) -> nat
    decreases d.len(),
{
    if d.len() == 0 {
        0
    } else {
        digits_value(d.drop_last()) * 10 + digit_value(d.last())
    }
}

/// One to nine decimal digits: a frame index that fits any machine word.
pub open spec fn frame_digits(d: Seq<char>) -> bool {
    1 <= d.len() <= 9 && forall|i: int| 0 <= i < d.len() ==> is_digit(#[trigger] d[i])
}

/// The position of the first occurrence of `c`, or -1.
pub open spec fn index_of(s: Seq<char>, c: char) -> int
    decreases s.len(),
{
    if s.len() == 0 {
        -1
    } else if s[0] == c {
        0
    } else {
        let r = index_of(s.drop_first(), c);
        if r < 0 {
            -1
        } else {
            r + 1
        }
    }
}

/// A frame-indexed symbol `name@index` splits into its name (which holds no
/// delimiter) and its index; any other symbol is unframed.
pub open spec fn frame_parts(s: Seq<char>) -> Option<(Seq<char>, nat)> {
    let k = index_of(s, '@');
    if k >= 0 && frame_digits(s.subrange(k + 1, s.len() as int)) {
        Some((s.subrange(0, k), digits_value(s.subrange(k + 1, s.len() as int))))
    } else {
        None
    }
}

pub open spec fn is_frame_indexed(s: Seq<char>) -> bool {
    frame_parts(s) is Some
}

/// The symbol for `name` at frame `i`.
pub open spec fn framed(name: Seq<char>, i: nat) -> Seq<char> {
    name + seq!['@'] + decimal_text(i)
}

/// Names of formal arguments and internal names (holding `fml`, or starting with
/// `__`) stand for values that no transition changes.
pub open spec fn is_immutable(name: Seq<char>) -> bool {
    (exists|i: int| 0 <= i && i + 3 <= name.len() && #[trigger] name.subrange(i, i + 3) == seq!['f', 'm', 'l'])
        || (name.len() >= 2 && name[0] == '_' && name[1] == '_')
}

/// The value of the latest pair whose key is `k`.
pub open spec fn assoc(pairs: Seq<(Seq<char>, Seq<char>)>, k: Seq<char>) -> Option<Seq<char>>
    decreases pairs.len(),
{
    if pairs.len() == 0 {
        None
    } else if pairs.last().0 == k {
        Some(pairs.last().1)
    } else {
        assoc(pairs.drop_last(), k)
    }
}

pub open spec fn pairs_view(v: Seq<(String, String)>) -> Seq<(Seq<char>, Seq<char>)> {
    Seq::new(v.len(), |i: int| (v[i].0@, v[i].1@))
}

fn digit_of(d: u64) -> (c: char)
    requires
        d < 10,
    ensures
        c == digit_char(d as nat),
{
    if d == 0 {
        '0'
    } else if d == 1 {
        '1'
    } else if d == 2 {
        '2'
    } else if d == 3 {
        '3'
    } else if d == 4 {
        '4'
    } else if d == 5 {
        '5'
    } else if d == 6 {
        '6'
    } else if d == 7 {
        '7'
    } else if d == 8 {
        '8'
    } else {
        '9'
    }
}

/// The decimal digits of `n`.
pub fn decimal_chars(n: u64) -> (r: Vec<char>)
    ensures
        r@ == decimal_text(n as nat),
    decreases n,
{
    if n < 10 {
        let mut v: Vec<char> = Vec::new();
        v.push(digit_of(n));
        v
    } else {
        let mut v = decimal_chars(n / 10);
        v.push(digit_of(n % 10));
        v
    }
}

/// The symbol for `name` at frame `i`.
pub fn framed_symbol(name: &String, i: u64) -> (r: String)
    ensures
        r@ == framed(name@, i as nat),
{
    let mut cs = chars_of(name.as_str());
    cs.push('@');
    let ds = decimal_chars(i);
    let mut k: usize = 0;
    let ghost start = cs@;
    while k < ds.len()
        invariant
            k <= ds@.len(),
            cs@ == start + ds@.subrange(0, k as int),
        decreases ds@.len() - k,
    {
        cs.push(ds[k]);
        assert(ds@.subrange(0, k + 1) =~= ds@.subrange(0, k as int).push(ds@[k as int]));
        k = k + 1;
    }
    assert(ds@.subrange(0, ds@.len() as int) =~= ds@);
    string_of(&cs)
}

pub proof fn lemma_index_of_first(s: Seq<char>, c: char, k: int)
    requires
        0 <= k <= s.len(),
        forall|j: int| 0 <= j < k ==> s[j] != c,
    ensures
        k < s.len() && s[k] == c ==> index_of(s, c) == k,
        k == s.len() ==> index_of(s, c) == -1,
    decreases k,
{
    if k > 0 {
        let t = s.drop_first();
        assert forall|j: int| 0 <= j < k - 1 implies t[j] != c by {
            assert(t[j] == s[j + 1]);
        }
        lemma_index_of_first(t, c, k - 1);
        if k < s.len() && s[k] == c {
            assert(t[k - 1] == s[k]);
        }
    }
}

/// The name and frame index of a frame-indexed symbol.
pub fn split_frame(s: &String) -> (r: Option<(String, u64)>)
    ensures
        match r {
            Some((name, i)) => frame_parts(s@) == Some((name@, i as nat)),
            None => frame_parts(s@) is None,
        },
{
    let cs = chars_of(s.as_str());
    let n = cs.len();
    let mut k: usize = 0;
    while k < n && cs[k] != '@'
        invariant
            k <= n,
            n == cs@.len(),
            forall|j: int| 0 <= j < k ==> cs@[j] != '@',
        decreases n - k,
    {
        k = k + 1;
    }
    proof {
        lemma_index_of_first(s@, '@', k as int);
    }
    if k == n {
        return None;
    }
    let len = n - k - 1;
    if len < 1 || len > 9 {
        return None;
    }
    let ghost d = s@.subrange(k + 1, n as int);
    let mut value: u64 = 0;
    let mut j: usize = k + 1;
    while j < n
        invariant
            k + 1 <= j <= n,
            n == cs@.len(),
            cs@ == s@,
            n - k - 1 <= 9,
            index_of(s@, '@') == k,
            d == s@.subrange(k + 1, n as int),
            forall|m: int| k + 1 <= m < j ==> is_digit(#[trigger] cs@[m]),
            value as nat == digits_value(s@.subrange(k + 1, j as int)),
            value < pow10((j - k - 1) as nat),
        decreases n - j,
    {
        let c = cs[j];
        if !('0' <= c && c <= '9') {
            assert(!is_digit(d[j - k - 1]));
            return None;
        }
        proof {
            lemma_pow10_bound((j - k - 1) as nat);
        }
        let dv = (c as u32 - '0' as u32) as u64;
        proof {
            let sub = s@.subrange(k + 1, j + 1);
            assert(sub.drop_last() =~= s@.subrange(k + 1, j as int));
            assert(sub.last() == c);
            assert(pow10((j + 1 - k - 1) as nat) == pow10((j - k - 1) as nat) * 10);
            assert(value * 10 + dv < pow10((j - k - 1) as nat) * 10) by (nonlinear_arith)
                requires
                    value < pow10((j - k - 1) as nat),
                    dv < 10,
            ;
        }
        value = value * 10 + dv;
        j = j + 1;
    }
    proof {
        assert forall|m: int| 0 <= m < d.len() implies is_digit(#[trigger] d[m]) by {
            assert(d[m] == cs@[k + 1 + m]);
        }
    }
    let mut name_cs: Vec<char> = Vec::new();
    let mut m: usize = 0;
    while m < k
        invariant
            m <= k,
            k < n,
            n == cs@.len(),
            cs@ == s@,
            name_cs@ == s@.subrange(0, m as int),
        decreases k - m,
    {
        name_cs.push(cs[m]);
        assert(s@.subrange(0, m + 1) =~= s@.subrange(0, m as int).push(s@[m as int]));
        m = m + 1;
    }
    Some((string_of(&name_cs), value))
}

pub open spec fn pow10(n: nat) -> nat
    decreases n,
{
    if n == 0 {
        1
    } else {
        pow10((n - 1) as nat) * 10
    }
}

proof fn lemma_pow10_bound(n: nat)
    requires
        n <= 9,
    ensures
        pow10(n) <= 1_000_000_000,
{
    reveal_with_fuel(pow10, 10);
    if n == 0 {
    } else if n == 1 {
    } else if n == 2 {
    } else if n == 3 {
    } else if n == 4 {
    } else if n == 5 {
    } else if n == 6 {
    } else if n == 7 {
    } else if n == 8 {
    } else {
    }
}

/// Whether a name follows the convention of immutable variables.
pub fn name_is_immutable(name: &String) -> (r: bool)
    ensures
        r == is_immutable(name@),
{
    let cs = chars_of(name.as_str());
    let n = cs.len();
    if n >= 2 && cs[0] == '_' && cs[1] == '_' {
        return true;
    }
    let mut i: usize = 0;
    while n >= 3 && i <= n - 3
        invariant
            i <= n,
            n == cs@.len(),
            cs@ == name@,
            !(name@.len() >= 2 && name@[0] == '_' && name@[1] == '_'),
            forall|j: int| 0 <= j < i && j + 3 <= n ==> #[trigger] name@.subrange(j, j + 3) != seq!['f', 'm', 'l'],
        decreases n - i,
    {
        if cs[i] == 'f' && cs[i + 1] == 'm' && cs[i + 2] == 'l' {
            assert(name@.subrange(i as int, i + 3) =~= seq!['f', 'm', 'l']);
            return true;
        }
        assert(name@.subrange(i as int, i + 3)[0] == cs@[i as int]);
        assert(name@.subrange(i as int, i + 3)[1] == cs@[i + 1]);
        assert(name@.subrange(i as int, i + 3)[2] == cs@[i + 2]);
        i = i + 1;
    }
    false
}

/// The value of the latest pair whose key is `k`.
pub fn lookup_pair(pairs: &Vec<(String, String)>, k: &String) -> (r: Option<String>)
    ensures
        match r {
            Some(v) => assoc(pairs_view(pairs@), k@) == Some(v@),
            None => assoc(pairs_view(pairs@), k@) is None,
        },
{
    let ghost pv = pairs_view(pairs@);
    let mut i: usize = pairs.len();
    assert(pv.subrange(0, i as int) =~= pv);
    while i > 0
        invariant
            i <= pairs@.len(),
            pv == pairs_view(pairs@),
            assoc(pv, k@) == assoc(pv.subrange(0, i as int), k@),
        decreases i,
    {
        let ghost sub = pv.subrange(0, i as int);
        assert(sub.drop_last() =~= pv.subrange(0, i - 1));
        if pairs[i - 1].0 == *k {
            return Some(pairs[i - 1].1.clone());
        }
        i = i - 1;
    }
    None
}

/// Whether `s` is one of `names`.
pub fn contains_name(names: &Vec<String>, s: &String) -> (r: bool)
    ensures
        r == crate::concrete::strings_view(names@).contains(s@),
{
    let ghost v = crate::concrete::strings_view(names@);
    let mut i: usize = 0;
    while i < names.len()
        invariant
            i <= names@.len(),
            v == crate::concrete::strings_view(names@),
            forall|j: int| 0 <= j < i ==> v[j] != s@,
        decreases names@.len() - i,
    {
        if names[i] == *s {
            assert(v[i as int] == s@);
            return true;
        }
        i = i + 1;
    }
    false
}

} // verus!
verus! {

/// The position found by `index_of` is the first occurrence.
pub proof fn lemma_index_of_is_first(s: Seq<char>, c: char)
    ensures
        index_of(s, c) >= 0 ==> index_of(s, c) < s.len() && s[index_of(s, c)] == c && forall|j: int|
            0 <= j < index_of(s, c) ==> s[j] != c,
        index_of(s, c) < 0 ==> index_of(s, c) == -1 && forall|j: int| 0 <= j < s.len() ==> s[j] != c,
    decreases s.len(),
{
    if s.len() > 0 && s[0] != c {
        let t = s.drop_first();
        lemma_index_of_is_first(t, c);
        assert forall|j: int| 1 <= j < s.len() implies s[j] == t[j - 1] by {}
    }
}

/// The name of a frame-indexed symbol is not itself frame-indexed.
pub proof fn lemma_frame_name_unframed(s: Seq<char>)
    requires
        frame_parts(s) is Some,
    ensures
        !is_frame_indexed((frame_parts(s)->0).0),
{
    let k = index_of(s, '@');
    lemma_index_of_is_first(s, '@');
    let name = s.subrange(0, k);
    assert forall|j: int| 0 <= j < name.len() implies name[j] != '@' by {
        assert(name[j] == s[j]);
    }
    lemma_index_of_first(name, '@', name.len() as int);
}

} // verus!
verus! {

/// The texts separated by newlines.
pub open spec fn lines(s: Seq<Seq<char>>) -> Seq<char>
    decreases s.len(),
{
    if s.len() == 0 {
        Seq::empty()
    } else if s.len() == 1 {
        s[0]
    } else {
        lines(s.drop_last()) + seq!['\n'] + s.last()
    }
}

/// Relies on `itertools::Itertools::join`: the items in order, separated by `"\n"`.
#[verifier::external_body]
pub(crate) fn join_lines(v: &Vec<String>) -> (r: String)
    ensures
        r@ == lines(crate::concrete::strings_view(v@)),
{
    itertools::Itertools::join(&mut v.iter(), "\n")
}

} // verus!
verus! {

/// Each text preceded by a space.
pub open spec fn spaced(s: Seq<Seq<char>>) -> Seq<char>
    decreases s.len(),
{
    if s.len() == 0 {
        Seq::empty()
    } else {
        spaced(s.drop_last()) + " "@ + s.last()
    }
}

} // verus!
