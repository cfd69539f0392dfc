use vstd::prelude::*;

verus! {

broadcast use vstd::string::group_string_axioms;

/// Whether `c` has the Unicode `White_Space` property.
pub open spec fn is_white_space(c: char) -> bool {
    let u = c as u32;
    ||| 0x9 <= u <= 0xd
    ||| u == 0x20
    ||| u == 0x85
    ||| u == 0xa0
    ||| u == 0x1680
    ||| 0x2000 <= u <= 0x200a
    ||| u == 0x2028
    ||| u == 0x2029
    ||| u == 0x202f
    ||| u == 0x205f
    ||| u == 0x3000
}

/// Whether `c` is whitespace (has the Unicode `White_Space` property).
pub fn char_is_whitespace(c: char) -> (r: bool)
    ensures
        r == is_white_space(c),
{
    let u = c as u32;
    (0x9 <= u && u <= 0xd) || u == 0x20 || u == 0x85 || u == 0xa0 || u == 0x1680 || (0x2000 <= u
        && u <= 0x200a) || u == 0x2028 || u == 0x2029 || u == 0x202f || u == 0x205f || u == 0x3000
}

/// Builds a `String` with `String::from_iter` over the characters of a
/// slice; the contract claims the string holds exactly those characters.
#[verifier::external_body]
pub(crate) fn string_from_chars(chars: &[char]) -> (r: String)
    ensures
        r@ == chars@,
{
    String::from_iter(chars.iter())
}

/// The characters of `text`, in order.
pub fn chars_of(text: &str) -> (r: Vec<char>)
    ensures
        r@ == text@,
{
    let mut out: Vec<char> = Vec::new();
    let chars = text.chars();
    for c in it: chars
        invariant
            out@ == it.seq().take(it.index()),
            it.seq() == text@,
    {
        out.push(c);
    }
    out
}

/// The number of bytes that the UTF-8 encoding of `s` takes.
pub open spec fn utf8_len(s: Seq<char>) -> nat {
    vstd::utf8::encode_utf8(s).len()
}

/// The first `n` characters of `s`, or all of them when it has fewer.
pub open spec fn prefix_of(s: Seq<char>, n: int) -> Seq<char> {
    if n < s.len() {
        s.take(n)
    } else {
        s
    }
}

/// The first `n` characters of `s` (all of them if `s` is shorter).
pub fn slice_from_start(s: String, n: usize) -> (r: String)
    ensures
        r@ == prefix_of(s@, n as int),
{
    let chars = chars_of(s.as_str());
    let mut out: Vec<char> = Vec::new();
    let mut i: usize = 0;
    while i < n && i < chars.len()
        invariant
            chars@ == s@,
            i <= chars.len(),
            i <= n,
            out@ == chars@.take(i as int),
        decreases chars.len() - i,
    {
        out.push(chars[i]);
        i += 1;
    }
    proof {
        if n >= chars.len() {
            assert(chars@.take(chars.len() as int) =~= chars@);
        }
    }
    string_from_chars(out.as_slice())
}

/// The decimal digit `d` (taken modulo ten) as a character.
pub open spec fn digit_char(d: nat) -> char {
    let d = d % 10;
    if d == 0 {
        '0'
    } else if d == 1 {
        '1'
    } else if d == 2 {
        '2'
    } else if d == 3 {
        '3'
    } else if d == 4 {
        '4'
    } else if d == 5 {
        '5'
    } else if d == 6 {
        '6'
    } else if d == 7 {
        '7'
    } else if d == 8 {
        '8'
    } else {
        '9'
    }
}

/// `n` written in decimal, most significant digit first, with no leading
/// zeros (zero itself is `"0"`): what `Display` prints for an unsigned
/// integer.
pub open spec fn decimal(n: nat) -> Seq<char>
    decreases n,
{
    if n < 10 {
        seq![digit_char(n)]
    } else {
        decimal(n / 10).push(digit_char(n % 10))
    }
}

/// Whether `c` is one of the decimal digits `0` to `9`.
pub open spec fn is_digit(c: char) -> bool {
    48 <= (c as u32) <= 57
}

/// The number that the decimal digits `d` stand for, most significant first.
pub open spec fn digits_value(d: Seq<char>) -> int
    decreases d.len(),
{
    if d.len() == 0 {
        0
    } else {
        digits_value(d.drop_last()) * 10 + ((d.last() as u32) - 48)
    }
}

/// Writing a number in decimal gives a nonempty run of digits that reads
/// back as that number.
pub proof fn lemma_decimal_reads_back(n: nat)
    ensures
        decimal(n).len() > 0,
        forall|k: int| 0 <= k < decimal(n).len() ==> is_digit(#[trigger] decimal(n)[k]),
        digits_value(decimal(n)) == n,
    decreases n,
{
    if n < 10 {
        let d = decimal(n);
        assert(d.drop_last() =~= Seq::<char>::empty());
        assert(digits_value(d.drop_last()) == 0);
        assert(d.last() == digit_char(n));
        assert(n % 10 == n);
        assert(('0' as u32) == 48 && ('9' as u32) == 57);
        assert(('1' as u32) == 49 && ('2' as u32) == 50 && ('3' as u32) == 51 && ('4' as u32) == 52);
        assert(('5' as u32) == 53 && ('6' as u32) == 54 && ('7' as u32) == 55 && ('8' as u32) == 56);
    } else {
        lemma_decimal_reads_back(n / 10);
        let d = decimal(n);
        assert(d.drop_last() =~= decimal(n / 10));
        let m: nat = n % 10;
        assert(digit_char(m) as u32 == m + 48) by {
            assert(('0' as u32) == 48 && ('9' as u32) == 57);
            assert(('1' as u32) == 49 && ('2' as u32) == 50 && ('3' as u32) == 51 && ('4' as u32)
                == 52);
            assert(('5' as u32) == 53 && ('6' as u32) == 54 && ('7' as u32) == 55 && ('8' as u32)
                == 56);
        }
        assert(d.last() == digit_char(m));
        assert((n / 10) * 10 + m == n);
        assert(digits_value(d) == digits_value(d.drop_last()) * 10 + ((d.last() as u32) - 48));
        assert forall|k: int| 0 <= k < d.len() implies is_digit(#[trigger] d[k]) by {
            if k < d.len() - 1 {
                assert(d[k] == decimal(n / 10)[k]);
            }
        }
    }
}

/// A number written in decimal has at least one digit.
pub proof fn lemma_decimal_nonempty(n: nat)
    ensures
        decimal(n).len() >= 1,
    decreases n,
{
    if n >= 10 {
        lemma_decimal_nonempty(n / 10);
    }
}

/// Two numbers with the same decimal writing are equal.
pub proof fn lemma_decimal_injective(a: nat, b: nat)
    requires
        decimal(a) == decimal(b),
    ensures
        a == b,
    decreases a,
{
    if a < 10 && b < 10 {
        assert(decimal(a)[0] == digit_char(a));
        assert(decimal(b)[0] == digit_char(b));
    } else if a < 10 {
        lemma_decimal_nonempty(b / 10);
        assert(decimal(b).len() >= 2);
    } else if b < 10 {
        lemma_decimal_nonempty(a / 10);
        assert(decimal(a).len() >= 2);
    } else {
        assert(decimal(a).last() == digit_char(a % 10));
        assert(decimal(b).last() == digit_char(b % 10));
        assert(decimal(a).drop_last() =~= decimal(a / 10));
        assert(decimal(b).drop_last() =~= decimal(b / 10));
        lemma_decimal_injective(a / 10, b / 10);
    }
}

fn digit(d: u64) -> (c: char)
    requires
        d < 10,
    ensures
        c == digit_char(d as nat),
{
    if d == 0 {
        '0'
    } else if d == 1 {
        '1'
    } else if d == 2 {
        '2'
    } else if d == 3 {
        '3'
    } else if d == 4 {
        '4'
    } else if d == 5 {
        '5'
    } else if d == 6 {
        '6'
    } else if d == 7 {
        '7'
    } else if d == 8 {
        '8'
    } else {
        '9'
    }
}

/// Appends the decimal digits of `n` to `out`.
pub fn push_decimal(n: u64, out: &mut Vec<char>)
    ensures
        final(out)@ == old(out)@ + decimal(n as nat),
    decreases n,
{
    if n >= 10 {
        push_decimal(n / 10, out);
    }
    out.push(digit(n % 10));
    proof {
        if n < 10 {
            assert(n % 10 == n);
        }
    }
}

/// The position of the last `c` in `s`, if there is one.
pub open spec fn last_index(s: Seq<char>, c: char) -> Option<int>
    decreases s.len(),
{
    if s.len() == 0 {
        None
    } else if s.last() == c {
        Some(s.len() - 1)
    } else {
        last_index(s.drop_last(), c)
    }
}

/// What follows the last `c` in `s`, or all of `s` when it holds no `c`.
pub open spec fn after_last(s: Seq<char>, c: char) -> Seq<char> {
    match last_index(s, c) {
        Some(i) => s.skip(i + 1),
        None => s,
    }
}

/// What precedes the last `c` in `s`, or nothing when it holds no `c`.
pub open spec fn before_last(s: Seq<char>, c: char) -> Seq<char> {
    match last_index(s, c) {
        Some(i) => s.take(i),
        None => Seq::empty(),
    }
}

/// The last occurrence is an occurrence, and nothing after it is `c`.
pub proof fn lemma_last_index(s: Seq<char>, c: char)
    ensures
        match last_index(s, c) {
            Some(i) => 0 <= i < s.len() && s[i] == c && forall|k: int| i < k < s.len() ==> s[k] != c,
            None => forall|k: int| 0 <= k < s.len() ==> s[k] != c,
        },
    decreases s.len(),
{
    if s.len() > 0 && s.last() != c {
        lemma_last_index(s.drop_last(), c);
        assert forall|k: int| 0 <= k < s.len() - 1 implies s.drop_last()[k] == s[k] by {}
    }
}

/// The last `c` of `s`, then `c`, then a text with no `c`, is that `c`.
pub proof fn lemma_last_index_append(s: Seq<char>, c: char, t: Seq<char>)
    requires
        forall|k: int| 0 <= k < t.len() ==> t[k] != c,
    ensures
        last_index(s.push(c) + t, c) == Some(s.len() as int),
    decreases t.len(),
{
    if t.len() == 0 {
        assert(s.push(c) + t =~= s.push(c));
    } else {
        assert((s.push(c) + t).drop_last() =~= s.push(c) + t.drop_last());
        assert((s.push(c) + t).last() == t.last());
        lemma_last_index_append(s, c, t.drop_last());
    }
}

/// Finds the last `c` in `s`.
pub fn find_last(s: &Vec<char>, c: char) -> (r: Option<usize>)
    ensures
        match r {
            Some(i) => last_index(s@, c) == Some(i as int),
            None => last_index(s@, c) is None,
        },
{
    let mut i: usize = s.len();
    assert(s@.take(i as int) =~= s@);
    while i > 0
        invariant
            i <= s.len(),
            last_index(s@, c) == last_index(s@.take(i as int), c),
        decreases i,
    {
        if s[i - 1] == c {
            assert(s@.take(i as int).last() == c);
            return Some(i - 1);
        }
        assert(s@.take(i as int).drop_last() =~= s@.take(i - 1));
        i -= 1;
    }
    None
}

/// Whether `sep` occurs in `s` starting at position `i`.
pub open spec fn occurs_at(s: Seq<char>, sep: Seq<char>, i: int) -> bool {
    0 <= i && i + sep.len() <= s.len() && s.subrange(i, i + sep.len()) == sep
}

/// The first position at or after `i` where `sep` occurs in `s`.
pub open spec fn find_from(s: Seq<char>, sep: Seq<char>, i: int) -> Option<int>
    decreases s.len() - i,
{
    if i < 0 || i + sep.len() > s.len() || sep.len() == 0 {
        None
    } else if occurs_at(s, sep, i) {
        Some(i)
    } else {
        find_from(s, sep, i + 1)
    }
}

/// An occurrence found by `find_from` is one, and none comes before it.
pub proof fn lemma_find_from(s: Seq<char>, sep: Seq<char>, i: int)
    requires
        0 <= i,
        sep.len() > 0,
    ensures
        match find_from(s, sep, i) {
            Some(j) => i <= j && occurs_at(s, sep, j) && forall|k: int|
                i <= k < j ==> !#[trigger] occurs_at(s, sep, k),
            None => forall|k: int| i <= k ==> !#[trigger] occurs_at(s, sep, k),
        },
    decreases s.len() - i,
{
    if i + sep.len() <= s.len() && !occurs_at(s, sep, i) {
        lemma_find_from(s, sep, i + 1);
    }
}

/// `find_from` finds an occurrence that has no other before it.
pub proof fn lemma_find_from_at(s: Seq<char>, sep: Seq<char>, i: int, j: int)
    requires
        0 <= i <= j,
        sep.len() > 0,
        occurs_at(s, sep, j),
        forall|k: int| i <= k < j ==> !#[trigger] occurs_at(s, sep, k),
    ensures
        find_from(s, sep, i) == Some(j),
    decreases j - i,
{
    if i < j {
        assert(!occurs_at(s, sep, i));
        lemma_find_from_at(s, sep, i + 1, j);
    }
}

/// `find_from` finds nothing where there is no occurrence.
pub proof fn lemma_find_from_absent(s: Seq<char>, sep: Seq<char>, i: int)
    requires
        0 <= i,
        sep.len() > 0,
        forall|k: int| i <= k ==> !#[trigger] occurs_at(s, sep, k),
    ensures
        find_from(s, sep, i) is None,
    decreases s.len() - i,
{
    if i + sep.len() <= s.len() {
        assert(!occurs_at(s, sep, i));
        lemma_find_from_absent(s, sep, i + 1);
    }
}

fn occurs_at_exec(s: &Vec<char>, sep: &Vec<char>, i: usize) -> (r: bool)
    requires
        i + sep.len() <= s.len(),
    ensures
        r == occurs_at(s@, sep@, i as int),
{
    let mut k: usize = 0;
    while k < sep.len()
        invariant
            i + sep.len() <= s.len(),
            k <= sep.len(),
            forall|j: int| 0 <= j < k ==> s@[i + j] == sep@[j],
        decreases sep.len() - k,
    {
        if s[i + k] != sep[k] {
            assert(s@.subrange(i as int, i + sep.len())[k as int] != sep@[k as int]);
            return false;
        }
        k += 1;
    }
    assert(s@.subrange(i as int, i + sep.len()) =~= sep@);
    true
}

/// The first occurrence of `sep` in `s` at or after position `from`.
pub fn find_sep(s: &Vec<char>, sep: &Vec<char>, from: usize) -> (r: Option<usize>)
    ensures
        match r {
            Some(j) => find_from(s@, sep@, from as int) == Some(j as int),
            None => find_from(s@, sep@, from as int) is None,
        },
{
    if sep.len() == 0 || sep.len() > s.len() {
        return None;
    }
    let last = s.len() - sep.len();
    let mut i: usize = from;
    while i <= last
        invariant
            sep.len() > 0,
            last == s.len() - sep.len(),
            from <= i,
            find_from(s@, sep@, from as int) == find_from(s@, sep@, i as int),
        decreases last + 1 - i,
    {
        if occurs_at_exec(s, sep, i) {
            return Some(i);
        }
        i += 1;
    }
    None
}

/// `s` without the characters satisfying `p` at its front.
pub open spec fn strip_front(s: Seq<char>, p: spec_fn(char) -> bool) -> Seq<char>
    decreases s.len(),
{
    if s.len() > 0 && p(s[0]) {
        strip_front(s.drop_first(), p)
    } else {
        s
    }
}

/// `s` without the characters satisfying `p` at its back.
pub open spec fn strip_back(s: Seq<char>, p: spec_fn(char) -> bool) -> Seq<char>
    decreases s.len(),
{
    if s.len() > 0 && p(s.last()) {
        strip_back(s.drop_last(), p)
    } else {
        s
    }
}

/// `s` without the characters satisfying `p` at either end.
pub open spec fn strip_both(s: Seq<char>, p: spec_fn(char) -> bool) -> Seq<char> {
    strip_back(strip_front(s, p), p)
}

/// The characters removed from the ends of a string: double quotes when
/// `quotes` holds, whitespace otherwise.
pub open spec fn strip_pred(quotes: bool) -> spec_fn(char) -> bool {
    if quotes {
        |c: char| c == '"'
    } else {
        |c: char| is_white_space(c)
    }
}

/// `s` without whitespace at either end, as `str::trim` gives it.
pub open spec fn trimmed(s: Seq<char>) -> Seq<char> {
    strip_both(s, strip_pred(false))
}

/// `s` without double quotes at either end, as `str::trim_matches('"')` gives it.
pub open spec fn unquoted(s: Seq<char>) -> Seq<char> {
    strip_both(s, strip_pred(true))
}

fn strippable(c: char, quotes: bool) -> (r: bool)
    ensures
        r == strip_pred(quotes)(c),
{
    if quotes {
        c == '"'
    } else {
        char_is_whitespace(c)
    }
}

proof fn lemma_strip_front_sub(s: Seq<char>, i: int, p: spec_fn(char) -> bool)
    requires
        0 <= i <= s.len(),
        forall|k: int| 0 <= k < i ==> p(#[trigger] s[k]),
    ensures
        strip_front(s, p) == strip_front(s.skip(i), p),
    decreases i,
{
    if i > 0 {
        assert(s.drop_first().skip(i - 1) =~= s.skip(i));
        lemma_strip_front_sub(s.drop_first(), i - 1, p);
    } else {
        assert(s.skip(0) =~= s);
    }
}

proof fn lemma_strip_back_sub(s: Seq<char>, j: int, p: spec_fn(char) -> bool)
    requires
        0 <= j <= s.len(),
        forall|k: int| j <= k < s.len() ==> p(#[trigger] s[k]),
    ensures
        strip_back(s, p) == strip_back(s.take(j), p),
    decreases s.len() - j,
{
    if j < s.len() {
        assert(s.drop_last().take(j) =~= s.take(j));
        lemma_strip_back_sub(s.drop_last(), j, p);
    } else {
        assert(s.take(j) =~= s);
    }
}

/// Removes from both ends of `s` the characters that are whitespace (when
/// `quotes` is false) or double quotes (when it is true).
fn strip_chars(s: &Vec<char>, quotes: bool) -> (r: Vec<char>)
    ensures
        quotes ==> r@ == unquoted(s@),
        !quotes ==> r@ == trimmed(s@),
{
    let ghost p = strip_pred(quotes);
    let mut i: usize = 0;
    while i < s.len() && strippable(s[i], quotes)
        invariant
            i <= s.len(),
            forall|k: int| 0 <= k < i ==> p(#[trigger] s@[k]),
            p == strip_pred(quotes),
        decreases s.len() - i,
    {
        i += 1;
    }
    proof {
        lemma_strip_front_sub(s@, i as int, p);
    }
    let mut j: usize = s.len();
    while j > i && strippable(s[j - 1], quotes)
        invariant
            i <= j <= s.len(),
            forall|k: int| j <= k < s.len() ==> p(#[trigger] s@[k]),
            p == strip_pred(quotes),
        decreases j,
    {
        j -= 1;
    }
    let mut out: Vec<char> = Vec::new();
    let mut k: usize = i;
    while k < j
        invariant
            i <= k <= j <= s.len(),
            out@ == s@.subrange(i as int, k as int),
        decreases j - k,
    {
        out.push(s[k]);
        k += 1;
    }
    proof {
        let t = s@.skip(i as int);
        assert(strip_front(t, p) == t) by {
            if t.len() > 0 {
                assert(t[0] == s@[i as int]);
            }
        }
        lemma_strip_back_sub(t, (j - i) as int, p);
        assert(t.take((j - i) as int) =~= s@.subrange(i as int, j as int));
        let u = s@.subrange(i as int, j as int);
        if u.len() > 0 {
            assert(u.last() == s@[j - 1]);
        }
        assert(strip_back(u, p) == u);
    }
    out
}

/// `s` without whitespace at either end.
pub fn trim_chars(s: &Vec<char>) -> (r: Vec<char>)
    ensures
        r@ == trimmed(s@),
{
    strip_chars(s, false)
}

/// `s` without double quotes at either end.
pub fn unquote_chars(s: &Vec<char>) -> (r: Vec<char>)
    ensures
        r@ == unquoted(s@),
{
    strip_chars(s, true)
}

/// The characters of `s` from position `from` to its end, as a string.
pub fn string_from(s: &Vec<char>, from: usize) -> (r: String)
    requires
        from <= s.len(),
    ensures
        r@ == s@.skip(from as int),
{
    let part = vstd::slice::slice_subrange(s.as_slice(), from, s.len());
    assert(part@ =~= s@.skip(from as int));
    string_from_chars(part)
}

/// What follows the last `c` in `s`, or all of `s` when it holds no `c`.
pub fn chars_after_last(s: &Vec<char>, c: char) -> (r: String)
    ensures
        r@ == after_last(s@, c),
{
    proof {
        lemma_last_index(s@, c);
    }
    match find_last(s, c) {
        Some(i) => {
            assert(last_index(s@, c) == Some(i as int));
            assert(i < s.len());
            string_from(s, i + 1)
        },
        None => {
            assert(s@.skip(0) =~= s@);
            string_from(s, 0)
        },
    }
}

} // verus!
