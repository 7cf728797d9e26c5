//! Work chunking and file-name helpers.

use crate::text::{chars_of, decimal, decimal_string, digit_char, digit_exec, push_char, split, split_text};
use crate::vcf::opt_text;
use vstd::string::StringExecFns;
use vstd::string::StrSliceExecFns;
use vstd::prelude::*;

verus! {

/// How many chunks `n` items make when `k` are asked for: one when there is
/// nothing to split or no chunk is asked for, else `min(k, n)`.
pub open spec fn chunk_count(n: nat, k: nat) -> nat {
    if n == 0 || k == 0 {
        1
    } else if k < n {
        k
    } else {
        n
    }
}

/// The length of the shorter chunks.
pub open spec fn chunk_size(n: nat, k: nat) -> nat {
    n / chunk_count(n, k)
}

/// How many chunks, the last ones, hold one item more than the others.
pub open spec fn chunk_extra(n: nat, k: nat) -> nat {
    n % chunk_count(n, k)
}

/// The index of the first chunk that holds one item more.
pub open spec fn first_long_chunk(n: nat, k: nat) -> int {
    chunk_count(n, k) - chunk_extra(n, k)
}

/// The length of chunk `i`.
pub open spec fn chunk_len(n: nat, k: nat, i: int) -> int {
    if i >= first_long_chunk(n, k) {
        chunk_size(n, k) + 1int
    } else {
        chunk_size(n, k) as int
    }
}

/// Where chunk `i` starts: after `i` chunks of the shorter length and the
/// longer chunks among them.
pub open spec fn chunk_start(n: nat, k: nat, i: int) -> int {
    i * chunk_size(n, k) + if i > first_long_chunk(n, k) {
        i - first_long_chunk(n, k)
    } else {
        0
    }
}

/// Where chunk `i` ends: where the next one starts.
pub open spec fn chunk_end(n: nat, k: nat, i: int) -> int {
    chunk_start(n, k, i + 1)
}

/// The chunks lie one after another from the start to the end of the items.
pub proof fn lemma_chunk_step(n: nat, k: nat, i: int)
    requires
        0 <= i < chunk_count(n, k),
    ensures
        chunk_end(n, k, i) == chunk_start(n, k, i) + chunk_len(n, k, i),
        0 <= chunk_start(n, k, i) <= chunk_end(n, k, i) <= n,
        chunk_start(n, k, 0) == 0,
        chunk_start(n, k, chunk_count(n, k) as int) == n,
        chunk_extra(n, k) < chunk_count(n, k),
{
    let c = chunk_count(n, k);
    let q = chunk_size(n, k);
    let r = chunk_extra(n, k);
    assert(c * q + r == n && r < c) by (nonlinear_arith)
        requires
            q == n / c,
            r == n % c,
            c > 0,
    ;
    assert((i + 1) * q == i * q + q) by (nonlinear_arith);
    assert(0 <= i * q) by (nonlinear_arith)
        requires
            i >= 0,
            q >= 0,
    ;
    assert((i + 1) * q <= c * q) by (nonlinear_arith)
        requires
            i + 1 <= c,
            q >= 0,
    ;
    assert(0 * q == 0);
}

pub open spec fn vec_views<T>(v: Seq<Vec<T>>) -> Seq<Seq<T>> {
    v.map_values(|c: Vec<T>| c@)
}

/// The chunks that `chunk_work` makes of `items`, as sequences.
pub open spec fn chunk_pieces<T>(items: Seq<T>, k: nat) -> Seq<Seq<T>> {
    Seq::new(
        chunk_count(items.len(), k),
        |i: int| items.subrange(chunk_start(items.len(), k, i), chunk_end(items.len(), k, i)),
    )
}

/// Splits `items` into `min(num_chunks, n)` contiguous chunks, in order,
/// whose lengths differ by at most one: the `n % count` last chunks hold one
/// item more. No items, or no chunks asked for, give the items as one chunk.
pub fn chunk_work<T: Clone>(items: Vec<T>, num_chunks: usize) -> (r: Vec<Vec<T>>)
    ensures
        r@.len() == chunk_count(items@.len(), num_chunks as nat),
        forall|i: int|
            0 <= i < r@.len() ==> #[trigger] r@[i]@ == items@.subrange(
                chunk_start(items@.len(), num_chunks as nat, i),
                chunk_end(items@.len(), num_chunks as nat, i),
            ),
        vec_views(r@) == chunk_pieces(items@, num_chunks as nat),
        forall|i: int, j: int|
            0 <= i < r@.len() && 0 <= j < r@.len() ==> #[trigger] r@[i]@.len() <= #[trigger] r@[j]@.len()
                + 1,
{
    let n = items.len();
    let ghost orig = items@;
    let ghost k = num_chunks as nat;
    let c = if n == 0 || num_chunks == 0 {
        1
    } else if num_chunks < n {
        num_chunks
    } else {
        n
    };
    let q = n / c;
    let first_long = c - n % c;
    let mut rest = items;
    let mut chunks: Vec<Vec<T>> = Vec::new();
    let mut i: usize = 0;
    proof {
        lemma_chunk_step(n as nat, k, 0);
    }
    assert(orig.subrange(0, n as int) =~= orig);
    while i + 1 < c
        invariant
            c == chunk_count(n as nat, k),
            q == chunk_size(n as nat, k),
            first_long == first_long_chunk(n as nat, k),
            k == num_chunks as nat,
            n == orig.len(),
            i < c,
            0 <= chunk_start(n as nat, k, i as int) <= n,
            rest@ == orig.subrange(chunk_start(n as nat, k, i as int), n as int),
            chunks@.len() == i,
            forall|j: int|
                0 <= j < i ==> #[trigger] chunks@[j]@ == orig.subrange(
                    chunk_start(n as nat, k, j),
                    chunk_end(n as nat, k, j),
                ),
        decreases c - i,
    {
        proof {
            lemma_chunk_step(n as nat, k, i as int);
            lemma_chunk_step(n as nat, k, i as int + 1);
        }
        let len = if i >= first_long {
            q + 1
        } else {
            q
        };
        let tail = rest.split_off(len);
        assert(rest@ =~= orig.subrange(
            chunk_start(n as nat, k, i as int),
            chunk_end(n as nat, k, i as int),
        ));
        chunks.push(rest);
        rest = tail;
        i += 1;
        assert(rest@ =~= orig.subrange(chunk_start(n as nat, k, i as int), n as int));
    }
    proof {
        lemma_chunk_step(n as nat, k, i as int);
    }
    chunks.push(rest);
    assert(vec_views(chunks@) =~= chunk_pieces(orig, k));
    assert forall|a: int, b: int|
        0 <= a < chunks@.len() && 0 <= b < chunks@.len() implies #[trigger] chunks@[a]@.len()
        <= #[trigger] chunks@[b]@.len() + 1 by {
        lemma_chunk_step(n as nat, k, a);
        lemma_chunk_step(n as nat, k, b);
    }
    chunks
}

/// A law of chunking: `n >= k > 0` items give exactly `k` contiguous chunks
/// that cover all `n` items, and their lengths differ by at most one; no
/// items give one empty chunk.
pub proof fn lemma_chunk_shape(n: nat, k: nat)
    ensures
        n == 0 ==> chunk_count(n, k) == 1 && chunk_end(n, k, 0) - chunk_start(n, k, 0) == 0,
        n >= k > 0 ==> {
            &&& chunk_count(n, k) == k
            &&& chunk_start(n, k, 0) == 0
            &&& chunk_end(n, k, k - 1) == n
            &&& forall|i: int|
                0 <= i < k - 1 ==> #[trigger] chunk_end(n, k, i) == chunk_start(n, k, i + 1)
        },
        n >= k > 0 ==> forall|i: int, j: int|
            0 <= i < k && 0 <= j < k ==> #[trigger] (chunk_end(n, k, i) - chunk_start(n, k, i)) - (
            #[trigger] chunk_end(n, k, j) - chunk_start(n, k, j)) <= 1,
{
    lemma_chunk_step(n, k, 0);
    if n >= k > 0 {
        lemma_chunk_step(n, k, k - 1);
        assert forall|i: int, j: int| 0 <= i < k && 0 <= j < k implies #[trigger] (chunk_end(
            n,
            k,
            i,
        ) - chunk_start(n, k, i)) - (#[trigger] chunk_end(n, k, j) - chunk_start(n, k, j)) <= 1 by {
            lemma_chunk_step(n, k, i);
            lemma_chunk_step(n, k, j);
        }
    }
}

/// The last piece that names a file: empty pieces and `.` are passed
/// over; a final `..` names none.
pub open spec fn last_named(pieces: Seq<Seq<char>>) -> Option<Seq<char>>
    decreases pieces.len(),
{
    if pieces.len() == 0 {
        None
    } else if pieces.last().len() == 0 || pieces.last() == "."@ {
        last_named(pieces.drop_last())
    } else if pieces.last() == ".."@ {
        None
    } else {
        Some(pieces.last())
    }
}

/// The file name of a `/`-separated path.
pub open spec fn file_name(path: Seq<char>) -> Option<Seq<char>> {
    last_named(split(path, '/'))
}

/// What follows the last `.` of a file name; none where there is no `.`,
/// or where the only `.` begins the name.
pub open spec fn name_extension(name: Seq<char>) -> Option<Seq<char>> {
    let parts = split(name, '.');
    if parts.len() < 2 {
        None
    } else if parts.len() == 2 && parts[0].len() == 0 {
        None
    } else {
        Some(parts.last())
    }
}

/// The extension of a path's file name.
pub open spec fn path_extension(path: Seq<char>) -> Option<Seq<char>> {
    match file_name(path) {
        Some(n) => name_extension(n),
        None => None,
    }
}

pub open spec fn ascii_lower(c: char) -> char {
    if 'A' <= c && c <= 'Z' {
        ((c as u32) + 32) as char
    } else {
        c
    }
}

/// Equal up to the case of ASCII letters.
pub open spec fn eq_ignore_ascii_case(a: Seq<char>, b: Seq<char>) -> bool {
    a.len() == b.len() && forall|i: int| 0 <= i < a.len() ==> ascii_lower(#[trigger] a[i]) == ascii_lower(b[i])
}

fn ascii_lower_exec(c: char) -> (r: char)
    ensures
        r == ascii_lower(c),
{
    if 'A' <= c && c <= 'Z' {
        ((c as u32 as u8) + 32u8) as char
    } else {
        c
    }
}

fn eq_ignore_ascii_case_exec(a: &str, b: &str) -> (r: bool)
    ensures
        r == eq_ignore_ascii_case(a@, b@),
{
    let x = chars_of(a);
    let y = chars_of(b);
    if x.len() != y.len() {
        return false;
    }
    let mut i: usize = 0;
    while i < x.len()
        invariant
            x@ == a@,
            y@ == b@,
            x@.len() == y@.len(),
            i <= x@.len(),
            forall|j: int| 0 <= j < i ==> ascii_lower(#[trigger] x@[j]) == ascii_lower(y@[j]),
        decreases x.len() - i,
    {
        if ascii_lower_exec(x[i]) != ascii_lower_exec(y[i]) {
            return false;
        }
        i += 1;
    }
    true
}

fn path_extension_exec(path: &str) -> (r: Option<String>)
    ensures
        opt_text(r) == path_extension(path@),
{
    let pieces = split_text(path, '/');
    let ghost pv = pieces.deep_view();
    let mut i = pieces.len();
    assert(pv.take(i as int) =~= pv);
    while i > 0 && (pieces[i - 1].as_str().unicode_len() == 0 || crate::text::same_text(
        pieces[i - 1].as_str(),
        ".",
    ))
        invariant
            i <= pieces@.len(),
            pv == pieces.deep_view(),
            last_named(pv) == last_named(pv.take(i as int)),
        decreases i,
    {
        assert(pv.take(i as int).drop_last() =~= pv.take(i - 1));
        assert(pv.take(i as int).last() == pieces@[i - 1]@);
        i -= 1;
    }
    if i > 0 {
        assert(pv.take(i as int).drop_last() =~= pv.take(i - 1));
        assert(pv.take(i as int).last() == pieces@[i - 1]@);
    }
    if i == 0 {
        return None;
    }
    let last = &pieces[i - 1];
    if crate::text::same_text(last.as_str(), "..") {
        return None;
    }
    let parts = split_text(last.as_str(), '.');
    if parts.len() < 2 {
        return None;
    }
    if parts.len() == 2 && parts[0].as_str().unicode_len() == 0 {
        return None;
    }
    Some(parts[parts.len() - 1].clone())
}

/// What `str::to_lowercase` gives for a text (full Unicode lower case).
pub uninterp spec fn lower_of(s: Seq<char>) -> Seq<char>;

/// Relies on `str::to_lowercase`: the result depends on the characters alone.
#[verifier::external_body]
fn lowercase(s: &str) -> (r: String)
    ensures
        r@ == lower_of(s@),
{
    s.to_lowercase()
}

/// Whether the path's file name has the given extension, ASCII case
/// ignored.
pub fn has_extension(path: &str, extension: &str) -> (r: bool)
    ensures
        r == match path_extension(path@) {
            Some(e) => eq_ignore_ascii_case(e, extension@),
            None => false,
        },
{
    match path_extension_exec(path) {
        Some(e) => eq_ignore_ascii_case_exec(e.as_str(), extension),
        None => false,
    }
}

/// The extension of the path's file name, in lower case.
pub fn get_extension(path: &str) -> (r: Option<String>)
    ensures
        opt_text(r) == match path_extension(path@) {
            Some(e) => Some(lower_of(e)),
            None => None,
        },
{
    match path_extension_exec(path) {
        Some(e) => Some(lowercase(e.as_str())),
        None => None,
    }
}

pub open spec fn pow1024(u: nat) -> nat
    decreases u,
{
    if u == 0 {
        1
    } else {
        1024 * pow1024((u - 1) as nat)
    }
}

/// The unit for a size, from `u` on: the next while the size reaches it,
/// up to TB.
pub open spec fn unit_from(size: nat, u: nat) -> nat
    decreases 4 - u,
{
    if u < 4 && size >= pow1024(u + 1) {
        unit_from(size, u + 1)
    } else {
        u
    }
}

pub open spec fn unit_name(u: nat) -> Seq<char> {
    if u == 0 {
        "B"@
    } else if u == 1 {
        "KB"@
    } else if u == 2 {
        "MB"@
    } else if u == 3 {
        "GB"@
    } else {
        "TB"@
    }
}

/// `size / pow1024(u)` in hundredths, rounded to nearest, ties to even.
pub open spec fn hundredths(size: nat, u: nat) -> nat {
    let num = size * 100;
    let d = pow1024(u);
    let q = num / d;
    let rem = num % d;
    if 2 * rem > d || (2 * rem == d && q % 2 == 1) {
        q + 1
    } else {
        q
    }
}

/// A size in the largest unit (up to TB) that it reaches, with two decimals.
pub open spec fn size_text(size: nat) -> Seq<char> {
    let u = unit_from(size, 0);
    let h = hundredths(size, u);
    decimal(h / 100) + "."@ + seq![digit_char((h % 100) / 10), digit_char(h % 10)] + " "@
        + unit_name(u)
}

fn unit_name_exec(u: u128) -> (r: &'static str)
    ensures
        r@ == unit_name(u as nat),
{
    if u == 0 {
        "B"
    } else if u == 1 {
        "KB"
    } else if u == 2 {
        "MB"
    } else if u == 3 {
        "GB"
    } else {
        "TB"
    }
}

/// A byte count for people: the value in B, KB, MB, GB or TB (steps of
/// 1024) with two decimals, e.g. `1.50 KB`.
pub fn format_file_size(size: u64) -> (r: String)
    ensures
        r@ == size_text(size as nat),
{
    let s = size as u128;
    let mut u: u128 = 0;
    let mut d: u128 = 1;
    while u < 4 && s >= d * 1024
        invariant
            u <= 4,
            s == size as u128,
            d == pow1024(u as nat),
            (u == 0 && d == 1) || (u == 1 && d == 1024) || (u == 2 && d == 0x10_0000) || (u == 3
                && d == 0x4000_0000) || (u == 4 && d == 0x100_0000_0000),
            unit_from(size as nat, 0) == unit_from(size as nat, u as nat),
        decreases 4 - u,
    {
        assert(pow1024((u + 1) as nat) == 1024 * pow1024(u as nat));
        assert(size as nat >= pow1024((u + 1) as nat));
        assert(unit_from(size as nat, u as nat) == unit_from(size as nat, (u + 1) as nat));
        d = d * 1024;
        u = u + 1;
    }
    assert(pow1024((u + 1) as nat) == 1024 * pow1024(u as nat));
    assert(unit_from(size as nat, u as nat) == u);
    let num = s * 100;
    let q = num / d;
    let rem = num % d;
    let h = if 2 * rem > d || (2 * rem == d && q % 2 == 1) {
        q + 1
    } else {
        q
    };
    assert(h == hundredths(size as nat, u as nat));
    let mut out = decimal_string(h / 100);
    out.append(".");
    push_char(&mut out, digit_exec((h % 100) / 10));
    push_char(&mut out, digit_exec(h % 10));
    out.append(" ");
    out.append(unit_name_exec(u));
    out
}

} // verus!
