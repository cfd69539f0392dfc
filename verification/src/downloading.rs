use vstd::prelude::*;
use crate::text::{
    after_last, before_last, chars_after_last, last_index, lemma_last_index_append, chars_of, decimal, find_last, find_sep, find_from, lemma_last_index,
    prefix_of, push_decimal, slice_from_start, string_from_chars, trim_chars, trimmed, utf8_len,
    unquote_chars, unquoted,
};

verus! {

/// Files larger than this many bytes are fetched in several pieces.
pub const SPLIT_THRESHOLD: u64 = 41943040;

/// Files of at least this many bytes are fetched in six pieces or so.
pub const LARGE_FILE: u64 = 1073741824;

/// The size of the pieces in which a file of `total` bytes is fetched.
pub open spec fn chunk_size_spec(total: nat) -> nat {
    if total > SPLIT_THRESHOLD {
        if total >= LARGE_FILE {
            total / 6
        } else {
            total / 3
        }
    } else {
        total
    }
}

/// How many pieces of `chunk` bytes it takes to cover `total` bytes.
pub open spec fn pieces_needed(total: nat, chunk: nat) -> nat
    recommends
        chunk > 0,
{
    ((total + chunk - 1) / (chunk as int)) as nat
}

/// The first byte of piece `k`.
pub open spec fn piece_start(k: nat, chunk: nat) -> nat {
    k * chunk
}

/// The last byte of piece `k` (pieces end at the end of the file).
pub open spec fn piece_end(k: nat, chunk: nat, total: nat) -> int {
    if (k + 1) * chunk < total {
        (k + 1) * chunk - 1
    } else {
        total - 1
    }
}

/// One piece of a file: its number and its first and last byte.
#[derive(Clone, Copy, Debug, PartialEq, Eq)]
pub struct Piece {
    pub index: u16,
    pub start: u64,
    pub end: u64,
}

/// The size of the pieces in which a file of `total_size` bytes is fetched.
pub fn chunk_size_for(total_size: u64) -> (r: u64)
    ensures
        r == chunk_size_spec(total_size as nat),
{
    if total_size > SPLIT_THRESHOLD {
        if total_size >= LARGE_FILE {
            total_size / 6
        } else {
            total_size / 3
        }
    } else {
        total_size
    }
}

proof fn lemma_pieces_needed(t: int, c: int, k: int)
    by (nonlinear_arith)
    requires
        c > 0,
        k >= 1,
        (k - 1) * c < t,
        t <= k * c,
    ensures
        (t + c - 1) / c == k,
{
}

proof fn lemma_chunk_positive(t: nat)
    requires
        t > 0,
    ensures
        chunk_size_spec(t) > 0,
{
}

proof fn lemma_few_pieces(t: int, k: int)
    requires
        t > 0,
        (k - 1) * chunk_size_spec(t as nat) < t,
    ensures
        k <= 7,
{
    let c = chunk_size_spec(t as nat) as int;
    if t > SPLIT_THRESHOLD {
        if t >= LARGE_FILE {
            assert(t < 7 * c) by (nonlinear_arith)
                requires
                    c == t / 6,
                    t > 41943040,
            ;
        } else {
            assert(t < 7 * c) by (nonlinear_arith)
                requires
                    c == t / 3,
                    t > 41943040,
            ;
        }
    }
    assert(k <= 7) by (nonlinear_arith)
        requires
            (k - 1) * c < t,
            t <= 7 * c,
            c > 0,
    ;
}

/// The pieces in which a file of `total_size` bytes is fetched: numbered
/// from zero, each `chunk_size_for(total_size)` bytes long but the last,
/// which ends with the file.
pub fn plan_pieces(total_size: u64) -> (pieces: Vec<Piece>)
    requires
        total_size > 0,
    ensures
        ({
            let c = chunk_size_spec(total_size as nat);
            &&& pieces.len() == pieces_needed(total_size as nat, c)
            &&& forall|k: int|
                0 <= k < pieces.len() ==> {
                    &&& #[trigger] pieces[k].index == k
                    &&& pieces[k].start == piece_start(k as nat, c)
                    &&& pieces[k].end == piece_end(k as nat, c, total_size as nat)
                }
        }),
{
    let chunk = chunk_size_for(total_size);
    proof {
        lemma_chunk_positive(total_size as nat);
    }
    let ghost c = chunk as nat;
    let ghost t = total_size as nat;
    let mut pieces: Vec<Piece> = Vec::new();
    let mut start: u64 = 0;
    let mut index: u16 = 0;
    while start < total_size
        invariant
            chunk == c,
            c == chunk_size_spec(t),
            c > 0,
            t == total_size,
            index as int == pieces.len(),
            index >= 1 ==> (index - 1) * c < t,
            start < t ==> start == index * c,
            start >= t ==> start == t && index * c >= t,
            index <= 7,
            forall|k: int|
                0 <= k < pieces.len() ==> {
                    &&& #[trigger] pieces[k].index == k
                    &&& pieces[k].start == piece_start(k as nat, c)
                    &&& pieces[k].end == piece_end(k as nat, c, t)
                },
        decreases total_size - start,
    {
        let next: u64 = if total_size - start <= chunk {
            total_size
        } else {
            start + chunk
        };
        proof {
            assert((index + 1) * c == index * c + c) by (nonlinear_arith);
            lemma_few_pieces(t as int, index + 1);
        }
        let ghost k = index as nat;
        assert(piece_start(k, c) == start);
        assert(piece_end(k, c, t) == next - 1);
        pieces.push(Piece { index, start, end: next - 1 });
        start = next;
        index = index + 1;
    }
    proof {
        if index == 0 {
            assert(index * c == 0) by (nonlinear_arith)
                requires
                    index == 0,
            ;
        }
        lemma_pieces_needed(t as int, c as int, index as int);
    }
    pieces
}

proof fn lemma_ceil_bounds(t: int, c: int)
    requires
        t > 0,
        c > 0,
    ensures
        (t + c - 1) / c >= 1,
        ((t + c - 1) / c - 1) * c < t,
        t <= ((t + c - 1) / c) * c,
{
    let n = (t + c - 1) / c;
    let r = (t + c - 1) % c;
    vstd::arithmetic::div_mod::lemma_fundamental_div_mod(t + c - 1, c);
    assert(t + c - 1 == c * n + r);
    assert(0 <= r < c);
    assert((n - 1) * c == n * c - c) by (nonlinear_arith);
    assert(n * c == c * n) by (nonlinear_arith);
    assert(n >= 1) by (nonlinear_arith)
        requires
            t + c - 1 == c * n + r,
            r < c,
            t > 0,
            c > 0,
    ;
}

/// The pieces of a file follow one another with no gap and no overlap:
/// the first starts at byte zero, each next one starts just after the one
/// before ends, the last ends at the last byte of the file, and none is
/// empty or longer than the chunk size.
pub proof fn law_pieces_cover_file(total: nat)
    requires
        total > 0,
    ensures
        ({
            let c = chunk_size_spec(total);
            let n = pieces_needed(total, c);
            &&& n >= 1
            &&& piece_start(0, c) == 0
            &&& piece_end((n - 1) as nat, c, total) == total - 1
            &&& forall|k: nat|
                k + 1 < n ==> #[trigger] piece_end(k, c, total) + 1 == piece_start(k + 1, c)
            &&& forall|k: nat|
                k < n ==> piece_start(k, c) <= #[trigger] piece_end(k, c, total) && piece_end(
                    k,
                    c,
                    total,
                ) - piece_start(k, c) < c
        }),
{
    let c = chunk_size_spec(total);
    lemma_chunk_positive(total);
    let n = pieces_needed(total, c);
    lemma_ceil_bounds(total as int, c as int);
    assert(0 * c == 0) by (nonlinear_arith);
    assert(((n - 1) as nat + 1) * c == n * c);
    assert forall|k: nat| k + 1 < n implies #[trigger] piece_end(k, c, total) + 1 == piece_start(
        k + 1,
        c,
    ) by {
        assert((k + 1) * c <= (n - 1) * c) by (nonlinear_arith)
            requires
                k + 1 <= n - 1,
                c > 0,
        ;
    }
    assert forall|k: nat| k < n implies piece_start(k, c) <= #[trigger] piece_end(k, c, total)
        && piece_end(k, c, total) - piece_start(k, c) < c by {
        assert(k * c <= (n - 1) * c) by (nonlinear_arith)
            requires
                k <= n - 1,
                c > 0,
        ;
        assert((k + 1) * c == k * c + c) by (nonlinear_arith);
    }
}

/// How many pieces a file is fetched in: one piece when it is 40 MiB or
/// smaller; when it is larger, three pieces of a third of it each (rounded
/// down) plus at most one piece of the bytes left over; and from 1 GiB on,
/// six pieces of a sixth of it each plus at most one piece left over.
pub proof fn law_piece_count_by_size(total: nat)
    requires
        total > 0,
    ensures
        ({
            let c = chunk_size_spec(total);
            let n = pieces_needed(total, c);
            &&& total <= 41943040 ==> c == total && n == 1
            &&& 41943040 < total < 1073741824 ==> 3 * c <= total < 3 * c + 3 && 3 <= n <= 4
            &&& 1073741824 <= total ==> 6 * c <= total < 6 * c + 6 && 6 <= n <= 7
        }),
{
    let c = chunk_size_spec(total);
    lemma_chunk_positive(total);
    let n = pieces_needed(total, c);
    lemma_ceil_bounds(total as int, c as int);
    if total <= 41943040 {
        assert(n == 1) by (nonlinear_arith)
            requires
                (n - 1) * c < total,
                total <= n * c,
                c == total,
                c > 0,
        ;
    } else if total < 1073741824 {
        assert(3 <= n <= 4) by (nonlinear_arith)
            requires
                (n - 1) * c < total,
                total <= n * c,
                c == total / 3,
                total > 41943040,
        ;
    } else {
        assert(6 <= n <= 7) by (nonlinear_arith)
            requires
                (n - 1) * c < total,
                total <= n * c,
                c == total / 6,
                total >= 1073741824,
        ;
    }
}

/// The value of the `Range` header that asks for the bytes from `start`
/// to `end`, both included.
pub open spec fn range_value(start: nat, end: nat) -> Seq<char> {
    seq!['b', 'y', 't', 'e', 's', '='] + decimal(start) + seq!['-'] + decimal(end)
}

/// A `Range` header value reads back as the byte range it asks for: it is
/// `bytes=`, then a nonempty run of digits that stands for the first byte,
/// a `-` (its last one), then a nonempty run of digits that stands for the
/// last byte.
pub proof fn law_range_value_reads_back(start: nat, end: nat)
    ensures
        ({
            let r = range_value(start, end);
            &&& r.take(6) == seq!['b', 'y', 't', 'e', 's', '=']
            &&& match last_index(r, '-') {
                Some(i) => {
                    &&& 6 < i < r.len() - 1
                    &&& forall|k: int| 6 <= k < i ==> crate::text::is_digit(#[trigger] r[k])
                    &&& forall|k: int| i < k < r.len() ==> crate::text::is_digit(#[trigger] r[k])
                    &&& crate::text::digits_value(r.subrange(6, i)) == start
                    &&& crate::text::digits_value(r.skip(i + 1)) == end
                },
                None => false,
            }
        }),
{
    let ds = decimal(start);
    let de = decimal(end);
    crate::text::lemma_decimal_reads_back(start);
    crate::text::lemma_decimal_reads_back(end);
    let head = seq!['b', 'y', 't', 'e', 's', '='] + ds;
    let r = range_value(start, end);
    assert(r =~= head.push('-') + de);
    assert forall|k: int| 0 <= k < de.len() implies de[k] != '-' by {
        assert(crate::text::is_digit(de[k]));
        assert(('-' as u32) == 45);
    }
    lemma_last_index_append(head, '-', de);
    let i = head.len() as int;
    assert(r.take(6) =~= seq!['b', 'y', 't', 'e', 's', '=']);
    assert(r.subrange(6, i) =~= ds);
    assert(r.skip(i + 1) =~= de);
    assert forall|k: int| 6 <= k < i implies crate::text::is_digit(#[trigger] r[k]) by {
        assert(r[k] == ds[k - 6]);
    }
    assert forall|k: int| i < k < r.len() implies crate::text::is_digit(#[trigger] r[k]) by {
        assert(r[k] == de[k - i - 1]);
    }
}

/// The `Range` header value that asks for `piece`: `bytes=<start>-<end>`.
pub fn range_header(piece: &Piece) -> (r: String)
    ensures
        r@ == range_value(piece.start as nat, piece.end as nat),
{
    let mut out: Vec<char> = vec!['b', 'y', 't', 'e', 's', '='];
    push_decimal(piece.start, &mut out);
    out.push('-');
    push_decimal(piece.end, &mut out);
    string_from_chars(out.as_slice())
}

/// The name of the file that holds the piece starting at byte `start`.
pub open spec fn part_name(original: Seq<char>, start: nat) -> Seq<char> {
    original + seq!['.', 'p', 'a', 'r', 't'] + decimal(start)
}

/// The name of the file that holds the piece of `original_filename` that
/// starts at byte `start`: `<original_filename>.part<start>`.
pub fn part_filename(original_filename: &str, start: u64) -> (r: String)
    ensures
        r@ == part_name(original_filename@, start as nat),
{
    let mut out = chars_of(original_filename);
    let mut suffix: Vec<char> = vec!['.', 'p', 'a', 'r', 't'];
    out.append(&mut suffix);
    push_decimal(start, &mut out);
    string_from_chars(out.as_slice())
}

/// The last segment of the path of `url`: what follows its last `/`,
/// leaving out one `/` at the very end.
pub open spec fn url_file_name(url: Seq<char>) -> Seq<char> {
    if url.len() > 0 && url.last() == '/' {
        after_last(url.drop_last(), '/')
    } else {
        after_last(url, '/')
    }
}

/// Pieces that start at different bytes are kept in files with different
/// names.
pub proof fn law_part_names_differ(original: Seq<char>, a: nat, b: nat)
    requires
        a != b,
    ensures
        part_name(original, a) != part_name(original, b),
{
    let k: int = original.len() as int + 5;
    if part_name(original, a) == part_name(original, b) {
        assert(part_name(original, a).skip(k) =~= decimal(a));
        assert(part_name(original, b).skip(k) =~= decimal(b));
        crate::text::lemma_decimal_injective(a, b);
    }
}

/// The name of the file that `url_string` points to: the last segment of
/// its path, a `/` at the very end left out.
pub fn parse_filename_from_url(url_string: String) -> (r: String)
    requires
        url_string@.len() > 0,
    ensures
        r@ == url_file_name(url_string@),
{
    let mut chars = chars_of(url_string.as_str());
    let n = chars.len();
    if chars[n - 1] == '/' {
        chars.truncate(n - 1);
        assert(chars@ =~= url_string@.drop_last());
    }
    chars_after_last(&chars, '/')
}

/// A file name read from a URL holds no `/`, the URL ends with it (after
/// its final `/`, if it has one), and it is the whole last segment: it
/// starts the URL or comes right after a `/`.
pub proof fn law_url_file_name_is_last_segment(url: Seq<char>)
    ensures
        forall|k: int| 0 <= k < url_file_name(url).len() ==> #[trigger] url_file_name(url)[k] != '/',
        ({
            let u = if url.len() > 0 && url.last() == '/' {
                url.drop_last()
            } else {
                url
            };
            &&& url_file_name(url).len() <= u.len()
            &&& u.skip(u.len() - url_file_name(url).len()) == url_file_name(url)
            &&& (url_file_name(url).len() == u.len() || u[u.len() - url_file_name(url).len() - 1]
                == '/')
        }),
{
    let u = if url.len() > 0 && url.last() == '/' {
        url.drop_last()
    } else {
        url
    };
    lemma_last_index(u, '/');
    match crate::text::last_index(u, '/') {
        Some(i) => {
            assert forall|k: int| 0 <= k < u.skip(i + 1).len() implies #[trigger] u.skip(i + 1)[k] != '/' by {
                assert(u.skip(i + 1)[k] == u[i + 1 + k]);
            }
        },
        None => {
            assert(u.skip(0) =~= u);
        },
    }
}

/// The contents of an optional string.
pub open spec fn opt_chars(s: Option<String>) -> Option<Seq<char>> {
    match s {
        Some(t) => Some(t@),
        None => None,
    }
}

/// The text that names the file in a `Content-Disposition` header.
pub open spec fn filename_key() -> Seq<char> {
    seq!['f', 'i', 'l', 'e', 'n', 'a', 'm', 'e', '=']
}

/// The second of the fields into which `sep` splits `s`, if there are two
/// or more: what lies between the first `sep` and the next (or the end).
pub open spec fn second_field(s: Seq<char>, sep: Seq<char>) -> Option<Seq<char>> {
    match find_from(s, sep, 0) {
        None => None,
        Some(i) => {
            let b = i + sep.len();
            match find_from(s, sep, b) {
                Some(j) => Some(s.subrange(b, j)),
                None => Some(s.subrange(b, s.len() as int)),
            }
        },
    }
}

/// The file name that a `Content-Disposition` header value gives: the text
/// after `filename=` (up to a further `filename=`), without whitespace at
/// its ends, then without double quotes at its ends.
pub open spec fn disposition_name(header: Seq<char>) -> Option<Seq<char>> {
    match second_field(header, filename_key()) {
        Some(f) => Some(unquoted(trimmed(f))),
        None => None,
    }
}

/// The second of the fields into which `sep` splits `s`.
pub fn second_field_of(s: &Vec<char>, sep: &Vec<char>) -> (r: Option<Vec<char>>)
    ensures
        match r {
            Some(f) => second_field(s@, sep@) == Some(f@),
            None => second_field(s@, sep@) is None,
        },
{
    proof {
        if sep@.len() > 0 {
            crate::text::lemma_find_from(s@, sep@, 0);
        }
    }
    match find_sep(s, sep, 0) {
        None => None,
        Some(i) => {
            assert(crate::text::occurs_at(s@, sep@, i as int));
            assert(i + sep.len() <= s.len());
            let b = i + sep.len();
            proof {
                crate::text::lemma_find_from(s@, sep@, b as int);
            }
            let end = match find_sep(s, sep, b) {
                Some(j) => {
                    assert(find_from(s@, sep@, b as int) == Some(j as int));
                    j
                },
                None => s.len(),
            };
            assert(b <= end <= s.len());
            let part = vstd::slice::slice_subrange(s.as_slice(), b, end);
            Some(vstd::slice::slice_to_vec(part))
        },
    }
}

/// The text after `filename=` in the `Content-Disposition` header value
/// `header` (up to a further `filename=`), as it stands.
pub fn disposition_field(header: &str) -> (r: Option<String>)
    ensures
        opt_chars(r) == second_field(header@, filename_key()),
{
    let chars = chars_of(header);
    let key: Vec<char> = vec!['f', 'i', 'l', 'e', 'n', 'a', 'm', 'e', '='];
    assert(key@ =~= filename_key());
    match second_field_of(&chars, &key) {
        None => None,
        Some(field) => Some(string_from_chars(field.as_slice())),
    }
}

/// The file name that the `Content-Disposition` header value `header` gives.
pub fn disposition_filename(header: &str) -> (r: Option<String>)
    ensures
        match r {
            Some(f) => disposition_name(header@) == Some(f@),
            None => disposition_name(header@) is None,
        },
{
    match disposition_field(header) {
        None => None,
        Some(field) => {
            let name = unquote_chars(&trim_chars(&chars_of(field.as_str())));
            Some(string_from_chars(name.as_slice()))
        },
    }
}

/// The name used when the server gives none: the name read from the URL,
/// or nothing at all when that name takes exactly twenty bytes.
pub open spec fn fallback_name(parsed: Seq<char>) -> Seq<char> {
    if utf8_len(parsed) >= 20 {
        prefix_of(parsed, 20 - utf8_len(parsed))
    } else {
        parsed
    }
}

/// The name used when the server gives none, from the name read from the URL.
pub fn fallback_filename(parsed: String) -> (r: String)
    requires
        utf8_len(parsed@) <= 20,
    ensures
        r@ == fallback_name(parsed@),
{
    let n = parsed.as_str().len();
    if n >= 20 {
        slice_from_start(parsed, 20 - n)
    } else {
        parsed
    }
}

/// The name under which a download is saved: the one the
/// `Content-Disposition` header gives, if it is there, readable and names
/// one, else the one read from the URL.
pub open spec fn chosen_name(disposition: Option<Seq<char>>, parsed: Seq<char>) -> Seq<char> {
    match disposition {
        Some(h) => match disposition_name(h) {
            Some(f) => f,
            None => fallback_name(parsed),
        },
        None => fallback_name(parsed),
    }
}

/// The name under which a download is saved, from the `Content-Disposition`
/// header value (when there is one and it is text) and the name read from
/// the URL.
pub fn original_filename(content_disposition: Option<String>, parsed: String) -> (r: String)
    requires
        (match content_disposition {
            Some(h) => disposition_name(h@) is None,
            None => true,
        }) ==> utf8_len(parsed@) <= 20,
    ensures
        r@ == chosen_name(
            match content_disposition {
                Some(h) => Some(h@),
                None => None,
            },
            parsed@,
        ),
{
    match content_disposition {
        Some(h) => match disposition_filename(h.as_str()) {
            Some(f) => f,
            None => fallback_filename(parsed),
        },
        None => fallback_filename(parsed),
    }
}

/// The name tried for a download that would overwrite a file: with `.` the
/// last dot of `filename`, its part before it, `(index).`, then its part
/// after it (a name with no dot is all extension).
pub open spec fn indexed_name(filename: Seq<char>, index: nat) -> Seq<char> {
    before_last(filename, '.') + seq!['('] + decimal(index) + seq![')', '.'] + after_last(
        filename,
        '.',
    )
}

/// The name tried, the `index`-th time, for a download that would overwrite
/// an existing file.
pub fn indexed_filename(filename: &str, index: u64) -> (r: String)
    ensures
        r@ == indexed_name(filename@, index as nat),
{
    let chars = chars_of(filename);
    proof {
        lemma_last_index(chars@, '.');
    }
    let mut out: Vec<char> = Vec::new();
    let ext_start: usize = match find_last(&chars, '.') {
        Some(i) => {
            let mut k: usize = 0;
            while k < i
                invariant
                    i < chars.len(),
                    k <= i,
                    out@ == chars@.take(k as int),
                decreases i - k,
            {
                out.push(chars[k]);
                k += 1;
            }
            i + 1
        },
        None => 0,
    };
    assert(out@ == before_last(chars@, '.'));
    out.push('(');
    push_decimal(index, &mut out);
    out.push(')');
    out.push('.');
    let mut k: usize = ext_start;
    let ghost head = out@;
    proof {
        assert(after_last(chars@, '.') =~= chars@.skip(ext_start as int));
    }
    while k < chars.len()
        invariant
            ext_start <= k <= chars.len(),
            out@ == head + chars@.subrange(ext_start as int, k as int),
        decreases chars.len() - k,
    {
        out.push(chars[k]);
        k += 1;
    }
    assert(chars@.subrange(ext_start as int, chars.len() as int) =~= chars@.skip(ext_start as int));
    string_from_chars(out.as_slice())
}

proof fn lemma_field_after_key(a: Seq<char>, field: Seq<char>)
    requires
        forall|k: int| 0 <= k < a.len() ==> a[k] != '=',
        forall|k: int| 0 <= k < field.len() ==> field[k] != '=',
    ensures
        second_field(a + filename_key() + field, filename_key()) == Some(field),
{
    let key = filename_key();
    let h = a + key + field;
    let n = a.len() as int;
    assert forall|k: int| 0 <= k < n implies !#[trigger] crate::text::occurs_at(h, key, k) by {
        if crate::text::occurs_at(h, key, k) {
            assert(h.subrange(k, k + 9)[8] == key[8]);
            assert(h[k + 8] == '=');
            if k + 8 < n {
                assert(h[k + 8] == a[k + 8]);
            } else {
                assert(h[k + 8] == key[k + 8 - n]);
            }
        }
    }
    assert(h.subrange(n, n + 9) =~= key);
    crate::text::lemma_find_from_at(h, key, 0, n);
    assert forall|k: int| n + 9 <= k implies !#[trigger] crate::text::occurs_at(h, key, k) by {
        if crate::text::occurs_at(h, key, k) {
            assert(h.subrange(k, k + 9)[8] == key[8]);
            assert(h[k + 8] == field[k + 8 - n - 9]);
        }
    }
    crate::text::lemma_find_from_absent(h, key, n + 9);
    assert(h.subrange(n + 9, h.len() as int) =~= field);
}

proof fn lemma_name_unwrapped(b: Seq<char>, quoted: bool)
    requires
        b.len() > 0,
        !crate::text::is_white_space(b[0]),
        !crate::text::is_white_space(b.last()),
        b[0] != '"',
        b.last() != '"',
    ensures
        unquoted(
            trimmed(
                if quoted {
                    seq!['"'] + b + seq!['"']
                } else {
                    b
                },
            ),
        ) == b,
{
    let field = if quoted {
        seq!['"'] + b + seq!['"']
    } else {
        b
    };
    let ws = crate::text::strip_pred(false);
    let q = crate::text::strip_pred(true);
    assert(crate::text::strip_front(field, ws) == field);
    assert(crate::text::strip_back(field, ws) == field);
    assert(trimmed(field) == field);
    if quoted {
        let tail = b + seq!['"'];
        assert(field.drop_first() =~= tail);
        assert(crate::text::strip_front(tail, q) == tail);
        assert(crate::text::strip_front(field, q) == tail);
        assert(tail.drop_last() =~= b);
        assert(crate::text::strip_back(b, q) == b);
        assert(crate::text::strip_back(tail, q) == b);
    } else {
        assert(crate::text::strip_front(b, q) == b);
        assert(crate::text::strip_back(b, q) == b);
    }
}

/// A file name that a `Content-Disposition` header gives wins over the name
/// read from the URL, whatever comes before `filename=` in the header: the
/// name, with or without double quotes round it, is the saved name.
pub proof fn law_header_name_wins(a: Seq<char>, b: Seq<char>, quoted: bool, parsed: Seq<char>)
    requires
        forall|k: int| 0 <= k < a.len() ==> a[k] != '=',
        forall|k: int| 0 <= k < b.len() ==> b[k] != '=',
        b.len() > 0,
        !crate::text::is_white_space(b[0]),
        !crate::text::is_white_space(b.last()),
        b[0] != '"',
        b.last() != '"',
    ensures
        chosen_name(
            Some(
                a + seq!['f', 'i', 'l', 'e', 'n', 'a', 'm', 'e', '='] + (if quoted {
                    seq!['"'] + b + seq!['"']
                } else {
                    b
                }),
            ),
            parsed,
        ) == b,
{
    assert(filename_key() =~= seq!['f', 'i', 'l', 'e', 'n', 'a', 'm', 'e', '=']);
    let field = if quoted {
        seq!['"'] + b + seq!['"']
    } else {
        b
    };
    assert forall|k: int| 0 <= k < field.len() implies field[k] != '=' by {
        if quoted && 0 < k < field.len() - 1 {
            assert(field[k] == b[k - 1]);
        }
    }
    lemma_field_after_key(a, field);
    lemma_name_unwrapped(b, quoted);
}

/// The name tried at the `attempt`-th try for a download that is to be
/// saved as `filename`: the name itself first, then the numbered names.
pub open spec fn candidate_name(filename: Seq<char>, attempt: nat) -> Seq<char> {
    if attempt == 0 {
        filename
    } else {
        indexed_name(filename, attempt)
    }
}

/// The name tried at the `attempt`-th try (counting from zero) for a
/// download that is to be saved as `filename`.
pub fn rename_candidate(filename: &str, attempt: u64) -> (r: String)
    ensures
        r@ == candidate_name(filename@, attempt as nat),
{
    if attempt == 0 {
        filename.to_owned()
    } else {
        indexed_filename(filename, attempt)
    }
}

/// The part files of a download saved as `original_filename`, one for each
/// piece of `pieces`, each with the number of its piece, in the order of
/// `pieces`.
pub fn part_files(original_filename: &str, pieces: &Vec<Piece>) -> (r: Vec<(u16, String)>)
    ensures
        r.len() == pieces.len(),
        forall|k: int|
            0 <= k < r.len() ==> #[trigger] r[k].0 == pieces[k].index && r[k].1@ == part_name(
                original_filename@,
                pieces[k].start as nat,
            ),
{
    let mut out: Vec<(u16, String)> = Vec::new();
    let mut k: usize = 0;
    while k < pieces.len()
        invariant
            k <= pieces.len(),
            out.len() == k,
            forall|j: int|
                0 <= j < k ==> #[trigger] out[j].0 == pieces[j].index && out[j].1@ == part_name(
                    original_filename@,
                    pieces[j].start as nat,
                ),
        decreases pieces.len() - k,
    {
        let piece = pieces[k];
        out.push((piece.index, part_filename(original_filename, piece.start)));
        k += 1;
    }
    out
}

/// Why a download failed. The texts are those of the errors met along the
/// way, as they print.
pub enum DownloadError {
    InvalidUrl,
    ClientBuild(String),
    ConnectionRefused,
    NotSuccess,
    ProgressStyle,
    CreateOutput(String),
    OpenPart(String),
    RemovePart(String, String),
    Copy(String),
}

/// The message reported for `e`.
pub open spec fn error_text(e: DownloadError) -> Seq<char> {
    match e {
        DownloadError::InvalidUrl => "Invalid URL."@,
        DownloadError::ClientBuild(d) => "Could not create ClientBuilder object for connection initialization. "@
            + d@,
        DownloadError::ConnectionRefused => "Connection refused."@,
        DownloadError::NotSuccess => "Response status of request is not sucess."@,
        DownloadError::ProgressStyle => "Could not set progress bar style."@,
        DownloadError::CreateOutput(d) => "Could not create final output file, does the running program has permission? "@
            + d@,
        DownloadError::OpenPart(d) => "Could not open file part. "@ + d@,
        DownloadError::RemovePart(name, d) => "Could not remove file piece \""@ + name@
            + "\" after successful output file finish step. "@ + d@,
        DownloadError::Copy(d) => "error: "@ + d@,
    }
}

impl DownloadError {
    /// The message reported for this error.
    pub fn message(&self) -> (r: String)
        ensures
            r@ == error_text(*self),
    {
        match self {
            DownloadError::InvalidUrl => "Invalid URL.".to_owned(),
            DownloadError::ClientBuild(d) => {
                let mut t: String =
                    "Could not create ClientBuilder object for connection initialization. ".to_owned();
                t.append(d.as_str());
                t
            },
            DownloadError::ConnectionRefused => "Connection refused.".to_owned(),
            DownloadError::NotSuccess => "Response status of request is not sucess.".to_owned(),
            DownloadError::ProgressStyle => "Could not set progress bar style.".to_owned(),
            DownloadError::CreateOutput(d) => {
                let mut t: String =
                    "Could not create final output file, does the running program has permission? ".to_owned();
                t.append(d.as_str());
                t
            },
            DownloadError::OpenPart(d) => {
                let mut t: String = "Could not open file part. ".to_owned();
                t.append(d.as_str());
                t
            },
            DownloadError::RemovePart(name, d) => {
                let mut t: String = "Could not remove file piece \"".to_owned();
                t.append(name.as_str());
                t.append("\" after successful output file finish step. ");
                t.append(d.as_str());
                t
            },
            DownloadError::Copy(d) => {
                let mut t: String = "error: ".to_owned();
                t.append(d.as_str());
                t
            },
        }
    }
}

/// A name tried for a download that would overwrite a file keeps the
/// extension of the name it comes from, and differs from the names tried
/// with other numbers.
pub proof fn law_indexed_name_keeps_extension(filename: Seq<char>, i: nat, j: nat)
    ensures
        after_last(indexed_name(filename, i), '.') == after_last(filename, '.'),
        before_last(indexed_name(filename, i), '.') == before_last(filename, '.') + seq!['(']
            + decimal(i) + seq![')'],
        i != j ==> indexed_name(filename, i) != indexed_name(filename, j),
{
    let ext = after_last(filename, '.');
    lemma_last_index(filename, '.');
    assert forall|k: int| 0 <= k < ext.len() implies ext[k] != '.' by {
        if let Some(p) = last_index(filename, '.') {
            assert(ext[k] == filename[p + 1 + k]);
        }
    }
    let head_i = before_last(filename, '.') + seq!['('] + decimal(i) + seq![')'];
    let head_j = before_last(filename, '.') + seq!['('] + decimal(j) + seq![')'];
    assert(indexed_name(filename, i) =~= head_i.push('.') + ext);
    assert(indexed_name(filename, j) =~= head_j.push('.') + ext);
    lemma_last_index_append(head_i, '.', ext);
    lemma_last_index_append(head_j, '.', ext);
    assert((head_i.push('.') + ext).skip(head_i.len() as int + 1) =~= ext);
    assert((head_i.push('.') + ext).take(head_i.len() as int) =~= head_i);
    if i != j && indexed_name(filename, i) == indexed_name(filename, j) {
        assert((head_j.push('.') + ext).take(head_j.len() as int) =~= head_j);
        let b: int = before_last(filename, '.').len() as int + 1;
        assert(head_i.drop_last().skip(b) =~= decimal(i));
        assert(head_j.drop_last().skip(b) =~= decimal(j));
        crate::text::lemma_decimal_injective(i, j);
    }
}

} // verus!
