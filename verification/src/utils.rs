//! Domain lists, domain names, URLs and batching.

use crate::text::{
    alphanumeric, find_char, has_prefix, is_alphanumeric, lowercase, push_chars, push_str,
    same_chars, slice_text, to_chars, to_lowercase, to_text, trim, trimmed,
};
use crate::keyed::{lemma_position, lemma_position_is, position};
use rand::Rng;
use vstd::prelude::*;
use vstd::utf8::encode_utf8;

verus! {

/// The views of a sequence of strings.
pub open spec fn texts(v: Seq<String>) -> Seq<Seq<char>> {
    v.map_values(|s: String| s@)
}

/// The index of the first `c` in `s`, or the length of `s` where there is
/// none.
pub open spec fn first_index(s: Seq<char>, c: char) -> int
    decreases s.len(),
{
    if s.len() == 0 || s[0] == c {
        0
    } else {
        1 + first_index(s.drop_first(), c)
    }
}

/// `first_index` is the least index that holds `c`.
pub proof fn lemma_first_index(s: Seq<char>, c: char)
    ensures
        0 <= first_index(s, c) <= s.len(),
        forall|i: int| 0 <= i < first_index(s, c) ==> s[i] != c,
        first_index(s, c) < s.len() ==> s[first_index(s, c)] == c,
    decreases s.len(),
{
    if s.len() != 0 && s[0] != c {
        let t = s.drop_first();
        lemma_first_index(t, c);
        assert forall|i: int| 0 <= i < first_index(s, c) implies s[i] != c by {
            if i > 0 {
                assert(s[i] == t[i - 1]);
            }
        }
    }
}

/// An index with no `c` before it, which holds `c` or is the length, is
/// `first_index`.
pub proof fn lemma_first_index_is(s: Seq<char>, c: char, k: int)
    requires
        0 <= k <= s.len(),
        forall|i: int| 0 <= i < k ==> s[i] != c,
        k < s.len() ==> s[k] == c,
    ensures
        first_index(s, c) == k,
{
    lemma_first_index(s, c);
}

/// The pieces of `s` between occurrences of `sep`. A text without `sep` is
/// one piece; a text that ends with `sep` has an empty last piece.
pub open spec fn split_on(s: Seq<char>, sep: char) -> Seq<Seq<char>>
    decreases s.len(),
{
    let i = first_index(s, sep);
    if 0 <= i < s.len() {
        seq![s.take(i)] + split_on(s.skip(i + 1), sep)
    } else {
        seq![s]
    }
}

/// Splits `v` at each `sep`.
pub fn split(v: &Vec<char>, sep: char) -> (parts: Vec<Vec<char>>)
    ensures
        parts@.map_values(|p: Vec<char>| p@) == split_on(v@, sep),
{
    let mut parts: Vec<Vec<char>> = Vec::new();
    let mut start: usize = 0;
    let n = v.len();
    proof {
        assert(v@.skip(0) == v@);
        assert(parts@.map_values(|p: Vec<char>| p@) + split_on(v@, sep) == split_on(v@, sep));
    }
    loop
        invariant
            start <= n == v.len(),
            parts@.map_values(|p: Vec<char>| p@) + split_on(v@.skip(start as int), sep) == split_on(
                v@,
                sep,
            ),
        decreases n - start,
    {
        let end = find_char(v, sep, start);
        let mut piece: Vec<char> = Vec::new();
        let mut i: usize = start;
        while i < end
            invariant
                start <= i <= end <= v.len(),
                piece@ == v@.subrange(start as int, i as int),
            decreases end - i,
        {
            piece.push(v[i]);
            i += 1;
        }
        let ghost rest = v@.skip(start as int);
        let ghost before = parts@.map_values(|p: Vec<char>| p@);
        proof {
            assert forall|k: int| 0 <= k < end - start implies rest[k] != sep by {
                assert(rest[k] == v@[start + k]);
            }
            lemma_first_index_is(rest, sep, end - start);
            assert(piece@ == rest.take(end - start));
        }
        parts.push(piece);
        assert(parts@.map_values(|p: Vec<char>| p@) == before.push(piece@));
        if end >= n {
            assert(rest.take(end - start) == rest);
            assert(before.push(piece@) == before + seq![rest]);
            return parts;
        }
        proof {
            assert(rest.skip(end - start + 1) == v@.skip(end + 1));
            assert(before.push(piece@) + split_on(v@.skip(end + 1), sep) == before + (seq![
                rest.take(end - start),
            ] + split_on(rest.skip(end - start + 1), sep)));
        }
        start = end + 1;
    }
}

/// Whether a trimmed line names a domain: it is neither empty nor a
/// comment, which begins with `#`.
pub open spec fn is_entry(line: Seq<char>) -> bool {
    line.len() > 0 && line[0] != '#'
}

/// The entries of a text: its lines, each without surrounding white space,
/// but for the empty ones and the comments.
pub open spec fn entries(content: Seq<char>) -> Seq<Seq<char>> {
    split_on(content, '\n').map_values(|l: Seq<char>| trimmed(l)).filter(
        |l: Seq<char>| is_entry(l),
    )
}

/// The entries of a list of domains that is held as one text, a domain to
/// a line: each line is trimmed, and empty lines and comments are left
/// out.
pub fn read_lines(content: &str) -> (lines: Vec<String>)
    ensures
        texts(lines@) == entries(content@),
{
    let chars = to_chars(content);
    let raw = split(&chars, '\n');
    let ghost all = split_on(content@, '\n').map_values(|l: Seq<char>| trimmed(l));
    let ghost keep = |l: Seq<char>| is_entry(l);
    let mut lines: Vec<String> = Vec::new();
    let mut i: usize = 0;
    while i < raw.len()
        invariant
            i <= raw.len(),
            raw@.map_values(|p: Vec<char>| p@) == split_on(content@, '\n'),
            all == split_on(content@, '\n').map_values(|l: Seq<char>| trimmed(l)),
            keep == (|l: Seq<char>| is_entry(l)),
            texts(lines@) == all.take(i as int).filter(keep),
        decreases raw.len() - i,
    {
        let line = trim(&raw[i]);
        proof {
            assert(raw@.map_values(|p: Vec<char>| p@)[i as int] == raw@[i as int]@);
            assert(line@ == all[i as int]);
            assert(all.take(i + 1) == all.take(i as int).push(line@));
            reveal(Seq::filter);
            assert(all.take(i as int).push(line@).drop_last() == all.take(i as int));
        }
        if line.len() > 0 && line[0] != '#' {
            let ghost before = texts(lines@);
            let text = to_text(&line);
            lines.push(text);
            assert(texts(lines@) == before.push(line@));
        }
        i += 1;
    }
    assert(all.take(raw.len() as int) == all);
    lines
}

/// The elements of `s` without repetitions: each is kept where it is first
/// seen.
pub open spec fn first_seen(s: Seq<Seq<char>>) -> Seq<Seq<char>>
    decreases s.len(),
{
    if s.len() == 0 {
        Seq::empty()
    } else {
        let d = first_seen(s.drop_last());
        if d.contains(s.last()) {
            d
        } else {
            d.push(s.last())
        }
    }
}

fn holds(list: &Vec<String>, item: &String) -> (r: bool)
    ensures
        r == texts(list@).contains(item@),
{
    let mut i: usize = 0;
    while i < list.len()
        invariant
            i <= list.len(),
            forall|k: int| 0 <= k < i ==> texts(list@)[k] != item@,
        decreases list.len() - i,
    {
        if list[i] == *item {
            assert(texts(list@)[i as int] == item@);
            return true;
        }
        i += 1;
    }
    false
}

/// The elements of `lines` without repetitions, each where it is first
/// seen.
pub fn unique(lines: Vec<String>) -> (out: Vec<String>)
    ensures
        texts(out@) == first_seen(texts(lines@)),
{
    let ghost all = texts(lines@);
    let mut out: Vec<String> = Vec::new();
    for line in it: lines
        invariant
            texts(it.seq()) == all,
            texts(out@) == first_seen(all.take(it.index())),
    {
        proof {
            assert(all.take(it.index() + 1).drop_last() == all.take(it.index()));
            assert(all[it.index()] == line@);
        }
        if !holds(&out, &line) {
            let ghost before = texts(out@);
            out.push(line);
            assert(texts(out@) == before.push(line@));
        }
    }
    assert(all.take(all.len() as int) == all);
    out
}

/// The domains of a list that is held as one text, a domain to a line, in
/// the order in which they are first seen and each once. Lines are
/// trimmed; empty lines and comments are left out.
pub fn read_domains(content: &str) -> (domains: Vec<String>)
    ensures
        texts(domains@) == first_seen(entries(content@)),
{
    unique(read_lines(content))
}

/// A domain name in the form in which it is looked up: without surrounding
/// white space and in lower case.
pub fn normalize_domain(domain: &str) -> (r: String)
    ensures
        r@ == lowercase(trimmed(domain@)),
{
    let chars = to_chars(domain);
    let t = trim(&chars);
    let s = to_text(&t);
    to_lowercase(s.as_str())
}

/// How many batches a list of `len` items makes at `k` items to a batch.
/// With `k` zero the whole list is one batch.
pub open spec fn chunk_count(len: nat, k: nat) -> nat {
    if k == 0 {
        1
    } else {
        ((len + k - 1) / (k as int)) as nat
    }
}

/// The batches of `s` at `k` items to a batch: batch `j` holds the items
/// from `j * k` up to `(j + 1) * k`, and the last batch what is left. With
/// `k` zero the whole list is one batch.
pub open spec fn chunks<T>(s: Seq<T>, k: nat) -> Seq<Seq<T>> {
    if k == 0 {
        seq![s]
    } else {
        Seq::new(
            chunk_count(s.len(), k),
            |j: int|
                s.subrange(
                    j * k,
                    if (j + 1) * k <= s.len() {
                        (j + 1) * k
                    } else {
                        s.len() as int
                    },
                ),
        )
    }
}

/// With `full` whole batches and `part` items left over, fewer than a
/// batch, the number of batches is `full`, and one more where `part` is
/// not zero.
pub proof fn lemma_chunk_count(full: nat, part: nat, k: nat)
    requires
        part < k,
    ensures
        chunk_count(full * k + part, k) == if part == 0 {
            full
        } else {
            full + 1
        },
        forall|j: int| 0 <= j < full ==> (#[trigger] (j * k)) + k <= full * k,
{
    let x = (full * k + part + k - 1) as int;
    if part == 0 {
        vstd::arithmetic::div_mod::lemma_fundamental_div_mod_converse(
            x,
            k as int,
            full as int,
            k - 1,
        );
    } else {
        assert((full + 1) * k == full * k + k) by (nonlinear_arith);
        vstd::arithmetic::div_mod::lemma_fundamental_div_mod_converse(
            x,
            k as int,
            (full + 1) as int,
            part - 1,
        );
    }
    assert forall|j: int| 0 <= j < full implies (#[trigger] (j * k)) + k <= full * k by {
        assert((j + 1) * k <= full * k) by (nonlinear_arith)
            requires
                0 <= j + 1 <= full,
                k >= 0,
        ;
        assert((j + 1) * k == j * k + k) by (nonlinear_arith);
    }
}

/// Splits a list into batches of `chunk_size` items; the last batch may be
/// shorter. With `chunk_size` zero the whole list is one batch.
pub fn chunk_vector<T: Clone>(vec: Vec<T>, chunk_size: usize) -> (out: Vec<Vec<T>>)
    ensures
        out@.map_values(|c: Vec<T>| c@) == chunks(vec@, chunk_size as nat),
{
    let ghost s = vec@;
    let ghost k = chunk_size as int;
    let mut out: Vec<Vec<T>> = Vec::new();
    if chunk_size == 0 {
        out.push(vec);
        assert(out@.map_values(|c: Vec<T>| c@) == seq![s]);
        return out;
    }
    let mut cur: Vec<T> = Vec::new();
    let ghost mut base: int = 0;
    assert(out.len() * k == 0) by (nonlinear_arith)
        requires
            out.len() == 0,
    ;
    for x in it: vec
        invariant
            it.seq() == s,
            k == chunk_size > 0,
            cur.len() < chunk_size,
            base == out.len() * k,
            base + cur.len() == it.index(),
            cur@ == s.subrange(base, it.index() as int),
            forall|j: int| 0 <= j < out.len() ==> (#[trigger] out@[j])@ == s.subrange(j * k, j * k + k),
    {
        cur.push(x);
        assert(cur@ == s.subrange(base, it.index() + 1));
        if cur.len() == chunk_size {
            proof {
                assert((out.len() + 1) * k == out.len() * k + k) by (nonlinear_arith);
            }
            out.push(cur);
            cur = Vec::new();
            proof {
                base = base + k;
            }
        }
    }
    let ghost full = out.len() as nat;
    let ghost part = cur.len() as nat;
    proof {
        lemma_chunk_count(full, part, k as nat);
        assert(s.len() == full * k + part);
    }
    if cur.len() > 0 {
        out.push(cur);
    }
    proof {
        let got = out@.map_values(|c: Vec<T>| c@);
        let want = chunks(s, k as nat);
        assert(got.len() == want.len());
        assert forall|j: int| 0 <= j < got.len() implies got[j] == want[j] by {
            if j < full {
                assert(j * k + k <= full * k);
                assert((j + 1) * k == j * k + k) by (nonlinear_arith);
            } else {
                assert((j + 1) * k == j * k + k) by (nonlinear_arith);
            }
        }
        assert(got =~= want);
    }
    out
}

/// The first `m` batches of a list, put end to end, are its first `m * k`
/// items, or the whole list where it is shorter.
pub proof fn lemma_chunks_prefix<T>(s: Seq<T>, k: nat, m: nat)
    requires
        k > 0,
        m <= chunk_count(s.len(), k),
    ensures
        chunks(s, k).take(m as int).flatten_alt() == s.take(
            if m * k <= s.len() {
                (m * k) as int
            } else {
                s.len() as int
            },
        ),
    decreases m,
{
    let c = chunks(s, k);
    let n = s.len();
    let full = n / k;
    let part = n % k;
    vstd::arithmetic::div_mod::lemma_fundamental_div_mod(n as int, k as int);
    assert(n == full * k + part) by (nonlinear_arith)
        requires
            n == k * (n / k) + n % k,
            full == n / k,
            part == n % k,
    ;
    vstd::arithmetic::div_mod::lemma_mod_bound(n as int, k as int);
    lemma_chunk_count(full, part, k);
    if m == 0 {
        assert(m * k == 0) by (nonlinear_arith)
            requires
                m == 0,
        ;
        assert(c.take(0).flatten_alt() =~= s.take(0));
    } else {
        lemma_chunks_prefix(s, k, (m - 1) as nat);
        let p = c.take(m as int);
        assert(p.drop_last() == c.take(m - 1));
        assert(p.last() == c[m - 1]);
        assert(m * k == (m - 1) * k + k) by (nonlinear_arith);
        if m - 1 < full {
            assert((m - 1) * k + k <= full * k);
        } else {
            assert((m - 1) * k == full * k);
        }
        assert(p.flatten_alt() =~= s.take(
            if m * k <= s.len() {
                (m * k) as int
            } else {
                s.len() as int
            },
        ));
    }
}

/// The batches of a list, put end to end in their order, are the list.
pub proof fn lemma_chunks_concat<T>(s: Seq<T>, k: nat)
    ensures
        chunks(s, k).flatten() == s,
{
    let c = chunks(s, k);
    c.lemma_flatten_and_flatten_alt_are_equivalent();
    if k == 0 {
        assert(c.drop_last() == Seq::<Seq<T>>::empty());
        assert(c.drop_last().flatten_alt() == Seq::<T>::empty());
        assert(c.flatten_alt() =~= s);
    } else {
        let n = s.len();
        let m = chunk_count(n, k);
        lemma_chunks_prefix(s, k, m);
        assert(c.take(m as int) == c);
        let full = n / k;
        let part = n % k;
        vstd::arithmetic::div_mod::lemma_fundamental_div_mod(n as int, k as int);
        assert(n == full * k + part) by (nonlinear_arith)
            requires
                n == k * (n / k) + n % k,
                full == n / k,
                part == n % k,
        ;
        vstd::arithmetic::div_mod::lemma_mod_bound(n as int, k as int);
        lemma_chunk_count(full, part, k);
        if part > 0 {
            assert((full + 1) * k == full * k + k) by (nonlinear_arith);
        }
        assert(s.take(n as int) == s);
    }
}

/// Whether a label of a domain name is well formed: one to 63 bytes of
/// letters, digits and hyphens, with a letter or digit at both ends unless
/// it begins with `xn--`.
pub open spec fn valid_label(l: Seq<char>) -> bool {
    &&& l.len() > 0
    &&& encode_utf8(l).len() <= 63
    &&& (alphanumeric(l[0]) && alphanumeric(l.last())) || "xn--"@.is_prefix_of(l)
    &&& forall|i: int| 0 <= i < l.len() ==> alphanumeric(#[trigger] l[i]) || l[i] == '-'
}

/// Whether a text is a well-formed domain name: at most 253 bytes without
/// surrounding white space, made of two or more well-formed labels with
/// dots between them.
pub open spec fn valid_domain(d: Seq<char>) -> bool {
    &&& trimmed(d) == d
    &&& d.len() > 0
    &&& encode_utf8(d).len() <= 253
    &&& split_on(d, '.').len() >= 2
    &&& forall|i: int|
        0 <= i < split_on(d, '.').len() ==> valid_label(#[trigger] split_on(d, '.')[i])
}

fn is_valid_label(label: &Vec<char>) -> (r: bool)
    ensures
        r == valid_label(label@),
{
    let n = label.len();
    if n == 0 {
        return false;
    }
    let text = to_text(label);
    if text.as_str().as_bytes().len() > 63 {
        return false;
    }
    if !(is_alphanumeric(label[0]) && is_alphanumeric(label[n - 1])) {
        let prefix = to_chars("xn--");
        if !has_prefix(label, &prefix) {
            return false;
        }
    }
    let mut i: usize = 0;
    while i < n
        invariant
            i <= n == label.len(),
            forall|k: int| 0 <= k < i ==> alphanumeric(#[trigger] label@[k]) || label@[k] == '-',
        decreases n - i,
    {
        if !(is_alphanumeric(label[i]) || label[i] == '-') {
            return false;
        }
        i += 1;
    }
    true
}

/// Whether a text is a well-formed domain name.
pub fn is_valid_domain(domain: &str) -> (r: bool)
    ensures
        r == valid_domain(domain@),
{
    let chars = to_chars(domain);
    let t = trim(&chars);
    if !same_chars(&t, &chars) {
        return false;
    }
    if chars.len() == 0 {
        return false;
    }
    if domain.as_bytes().len() > 253 {
        return false;
    }
    let labels = split(&chars, '.');
    let ghost parts = split_on(domain@, '.');
    if labels.len() < 2 {
        return false;
    }
    let mut i: usize = 0;
    while i < labels.len()
        invariant
            i <= labels.len(),
            labels@.map_values(|p: Vec<char>| p@) == parts,
            parts == split_on(domain@, '.'),
            forall|k: int| 0 <= k < i ==> valid_label(#[trigger] parts[k]),
        decreases labels.len() - i,
    {
        assert(labels@.map_values(|p: Vec<char>| p@)[i as int] == labels@[i as int]@);
        if !is_valid_label(&labels[i]) {
            assert(!valid_label(split_on(domain@, '.')[i as int]));
            return false;
        }
        i += 1;
    }
    true
}

/// Whether a character ends the host in a text that holds a host followed
/// by a port, a path, a query or a fragment.
pub open spec fn ends_host(c: char) -> bool {
    c == ':' || c == '/' || c == '?' || c == '#'
}

/// How many characters of `s` stand before the first that ends the host.
pub open spec fn host_len(s: Seq<char>) -> int
    decreases s.len(),
{
    if s.len() == 0 || ends_host(s[0]) {
        0
    } else {
        1 + host_len(s.drop_first())
    }
}

/// `host_len` is the least index with a character that ends the host, or
/// the length.
pub proof fn lemma_host_len(s: Seq<char>)
    ensures
        0 <= host_len(s) <= s.len(),
        forall|i: int| 0 <= i < host_len(s) ==> !ends_host(#[trigger] s[i]),
        host_len(s) < s.len() ==> ends_host(s[host_len(s)]),
    decreases s.len(),
{
    if s.len() != 0 && !ends_host(s[0]) {
        let t = s.drop_first();
        lemma_host_len(t);
        assert forall|i: int| 0 <= i < host_len(s) implies !ends_host(#[trigger] s[i]) by {
            if i > 0 {
                assert(s[i] == t[i - 1]);
            }
        }
    }
}

/// The scheme of the URL for a domain: `http://` where the text begins
/// with it, else `https://`.
pub open spec fn scheme_of(d: Seq<char>) -> Seq<char> {
    if "http://"@.is_prefix_of(d) {
        "http://"@
    } else {
        "https://"@
    }
}

/// The text behind the scheme, where it begins with one.
pub open spec fn after_scheme(d: Seq<char>) -> Seq<char> {
    if "http://"@.is_prefix_of(d) {
        d.skip("http://"@.len() as int)
    } else if "https://"@.is_prefix_of(d) {
        d.skip("https://"@.len() as int)
    } else {
        d
    }
}

/// The host in a domain text: what stands behind the scheme, up to the
/// first port, path, query or fragment.
pub open spec fn bare_host(d: Seq<char>) -> Seq<char> {
    after_scheme(d).take(host_len(after_scheme(d)))
}

/// The path as it stands in a URL: with a slash in front where it has
/// none.
pub open spec fn url_path(p: Seq<char>) -> Seq<char> {
    if p.len() > 0 && p[0] == '/' {
        p
    } else {
        seq!['/'] + p
    }
}

/// The URL for a path on a domain: the scheme of the domain text, or
/// `https://` where it has none, its host, and the path behind one slash.
pub open spec fn joined_url(d: Seq<char>, p: Seq<char>) -> Seq<char> {
    scheme_of(d) + bare_host(d) + url_path(p)
}

fn strip_scheme(d: &Vec<char>) -> (r: (bool, usize))
    ensures
        r.0 == "http://"@.is_prefix_of(d@),
        r.1 <= d.len(),
        d@.skip(r.1 as int) == after_scheme(d@),
{
    let http = to_chars("http://");
    let https = to_chars("https://");
    if has_prefix(d, &http) {
        (true, http.len())
    } else if has_prefix(d, &https) {
        (false, https.len())
    } else {
        assert(d@.skip(0) == d@);
        (false, 0)
    }
}

fn host_end(d: &Vec<char>, from: usize) -> (end: usize)
    requires
        from <= d.len(),
    ensures
        from <= end <= d.len(),
        end - from == host_len(d@.skip(from as int)),
{
    let mut i: usize = from;
    while i < d.len() && !(d[i] == ':' || d[i] == '/' || d[i] == '?' || d[i] == '#')
        invariant
            from <= i <= d.len(),
            forall|k: int| from <= k < i ==> !ends_host(#[trigger] d@[k]),
        decreases d.len() - i,
    {
        i += 1;
    }
    proof {
        let rest = d@.skip(from as int);
        lemma_host_len(rest);
        let h = host_len(rest);
        if h < i - from {
            assert(rest[h] == d@[from + h]);
        } else if h > i - from {
            assert(rest[i - from] == d@[i as int]);
        }
    }
    i
}

/// The host of a domain text: without scheme, port, path, query and
/// fragment.
pub fn host_of(domain: &str) -> (r: String)
    ensures
        r@ == bare_host(domain@),
{
    let d = to_chars(domain);
    let (_, start) = strip_scheme(&d);
    let end = host_end(&d, start);
    assert(d@.subrange(start as int, end as int) == d@.skip(start as int).take(end - start));
    slice_text(&d, start, end)
}

/// The name under which a domain is resolved: its host, in lower case.
pub open spec fn lookup_name(domain: Seq<char>) -> Seq<char> {
    bare_host(lowercase(trimmed(domain)))
}

/// The name under which a domain is resolved and cached: the domain is
/// normalized, and its scheme, port, path, query and fragment are left
/// out.
pub fn lookup_key(domain: &str) -> (r: String)
    ensures
        r@ == lookup_name(domain@),
{
    let d = normalize_domain(domain);
    host_of(d.as_str())
}

/// The URL for a path on a domain. The scheme of the domain text is kept,
/// and `https://` is taken where it has none; a port, path, query or
/// fragment in the domain text is left out; one slash stands between host
/// and path.
pub fn join_url(domain: &str, path: &str) -> (r: String)
    ensures
        r@ == joined_url(domain@, path@),
{
    let d = to_chars(domain);
    let p = to_chars(path);
    let (http, start) = strip_scheme(&d);
    let end = host_end(&d, start);
    let mut out: Vec<char> = Vec::new();
    if http {
        push_str(&mut out, "http://");
    } else {
        push_str(&mut out, "https://");
    }
    let mut i: usize = start;
    while i < end
        invariant
            start <= i <= end <= d.len(),
            out@ == scheme_of(d@) + d@.subrange(start as int, i as int),
        decreases end - i,
    {
        out.push(d[i]);
        i += 1;
    }
    assert(d@.subrange(start as int, end as int) == d@.skip(start as int).take(end - start));
    if !(p.len() > 0 && p[0] == '/') {
        out.push('/');
    }
    push_chars(&mut out, &p);
    assert(out@ == joined_url(d@, p@));
    to_text(&out)
}

/// The form in which `url::Url::parse` writes a text back as a URL, where
/// it takes the text for one.
pub uninterp spec fn canonical_url(s: Seq<char>) -> Option<Seq<char>>;

/// `url::Url::parse`, and the serialization of the URL it returns. The
/// parser's rules are not spelled out here; the result carries the name
/// `canonical_url`, which is `None` where the parser refuses the text.
#[verifier::external_body]
fn canonical(s: &str) -> (r: Option<String>)
    ensures
        match r {
            Some(u) => canonical_url(s@) == Some(u@),
            None => canonical_url(s@).is_none(),
        },
{
    match url::Url::parse(s) {
        Ok(u) => Some(String::from(u)),
        Err(_) => None,
    }
}

/// The URL to use, given the joined text and what the URL parser made of
/// it: the parser's form where there is one, else the joined text.
pub fn choose_url(joined: String, parsed: Option<String>) -> (r: String)
    ensures
        r@ == match parsed {
            Some(u) => u@,
            None => joined@,
        },
{
    match parsed {
        Some(u) => u,
        None => joined,
    }
}

/// The URL of `path` on `domain`, as a spec function of the two texts.
pub open spec fn url_of(domain: Seq<char>, path: Seq<char>) -> Seq<char> {
    let joined = joined_url(lowercase(trimmed(domain)), path);
    match canonical_url(joined) {
        Some(u) => u,
        None => joined,
    }
}

/// The URL of `path` on `domain`: the domain is normalized, joined with
/// the path as `join_url` says, and written in the URL parser's form where
/// the parser takes it.
pub fn build_url(domain: &str, path: &str) -> (r: String)
    ensures
        r@ == url_of(domain@, path@),
{
    let d = normalize_domain(domain);
    let joined = join_url(d.as_str(), path);
    let parsed = canonical(joined.as_str());
    choose_url(joined, parsed)
}

/// `Rng::gen_range` on the thread's generator from `rand::thread_rng`,
/// with an inclusive range: a value of the range, chosen at random. An
/// empty range makes it panic.
#[verifier::external_body]
fn draw(min: u64, max: u64) -> (r: u64)
    requires
        min <= max,
    ensures
        min <= r <= max,
{
    rand::thread_rng().gen_range(min..=max)
}

/// A delay in milliseconds for backing off, drawn at random between
/// `min_ms` and `max_ms`, both included.
pub fn random_backoff(min_ms: u64, max_ms: u64) -> (delay: u64)
    requires
        min_ms <= max_ms,
    ensures
        min_ms <= delay <= max_ms,
{
    draw(min_ms, max_ms)
}

/// Puts `item` in the place of the element at `i` and returns that
/// element.
pub fn replace_at<T>(v: &mut Vec<T>, i: usize, item: T) -> (previous: T)
    requires
        i < old(v).len(),
    ensures
        final(v)@ == old(v)@.update(i as int, item),
        previous == old(v)@[i as int],
{
    v.push(item);
    let previous = v.swap_remove(i);
    assert(v@ == old(v)@.update(i as int, item));
    previous
}

/// `chrono::Utc::now` and the `timestamp` of what it returns: the seconds
/// since the epoch at the time of the call. Nothing is claimed of the
/// value.
#[verifier::external_body]
pub(crate) fn unix_time() -> u64 {
    chrono::Utc::now().timestamp() as u64
}

/// The index at which `x` is first seen in `s`, or the length of `s`
/// where it is not there.
pub open spec fn first_at(s: Seq<Seq<char>>, x: Seq<char>) -> int {
    position(s, |y: Seq<char>| y, x)
}

/// What is left of a list when only the first of equal elements is kept:
/// nothing stands there twice, everything of the list stands there and
/// nothing else, and the elements stand in the order in which the list
/// first shows them.
pub proof fn lemma_first_seen(s: Seq<Seq<char>>)
    ensures
        first_seen(s).no_duplicates(),
        first_seen(s).len() <= s.len(),
        forall|x: Seq<char>| first_seen(s).contains(x) <==> s.contains(x),
        forall|i: int, j: int|
            0 <= i < j < first_seen(s).len() ==> first_at(s, #[trigger] first_seen(s)[i]) < first_at(
                s,
                #[trigger] first_seen(s)[j],
            ),
        forall|i: int|
            0 <= i < first_seen(s).len() ==> first_at(s, #[trigger] first_seen(s)[i]) < s.len(),
    decreases s.len(),
{
    let key = |y: Seq<char>| y;
    let out = first_seen(s);
    if s.len() > 0 {
        let t = s.drop_last();
        let last = s.last();
        let d = first_seen(t);
        lemma_first_seen(t);
        assert forall|x: Seq<char>| out.contains(x) <==> s.contains(x) by {
            if s.contains(x) {
                let k = choose|k: int| 0 <= k < s.len() && s[k] == x;
                if k < t.len() {
                    assert(t[k] == x);
                    assert(t.contains(x));
                    assert(d.contains(x));
                    let m = choose|m: int| 0 <= m < d.len() && d[m] == x;
                    assert(out[m] == x);
                } else {
                    if d.contains(x) {
                        let m = choose|m: int| 0 <= m < d.len() && d[m] == x;
                        assert(out[m] == x);
                    } else {
                        assert(out[d.len() as int] == x);
                    }
                }
            }
            if out.contains(x) {
                let m = choose|m: int| 0 <= m < out.len() && out[m] == x;
                if m < d.len() {
                    assert(d[m] == x);
                    assert(d.contains(x));
                    assert(t.contains(x));
                    let k = choose|k: int| 0 <= k < t.len() && t[k] == x;
                    assert(s[k] == x);
                } else {
                    assert(s[s.len() - 1] == x);
                }
            }
        }
        // The place where an element of the shorter list is first seen is
        // the same in the longer one.
        assert forall|i: int| 0 <= i < d.len() implies first_at(s, #[trigger] d[i]) == first_at(
            t,
            d[i],
        ) by {
            let x = d[i];
            lemma_position(t, key, x);
            let p = position(t, key, x);
            assert forall|k: int| 0 <= k < p implies key(#[trigger] s[k]) != x by {
                assert(s[k] == t[k]);
            }
            assert(s[p] == t[p]);
            lemma_position_is(s, key, x, p);
        }
        if !d.contains(last) {
            assert(!t.contains(last));
            assert forall|k: int| 0 <= k < s.len() - 1 implies key(#[trigger] s[k]) != last by {
                assert(t[k] == s[k]);
                if s[k] == last {
                    assert(t.contains(last));
                }
            }
            lemma_position_is(s, key, last, s.len() - 1);
            assert forall|i: int, j: int| 0 <= i < j < out.len() implies out[i] != out[j] by {
                if j == d.len() {
                    assert(d[i] == out[i]);
                    assert(d.contains(out[i]));
                } else {
                    assert(d[i] == out[i] && d[j] == out[j]);
                }
            }
            assert forall|i: int, j: int| 0 <= i < j < out.len() implies first_at(
                s,
                #[trigger] out[i],
            ) < first_at(s, #[trigger] out[j]) by {
                assert(out[i] == d[i]);
                if j < d.len() {
                    assert(out[j] == d[j]);
                }
            }
            assert forall|i: int| 0 <= i < out.len() implies first_at(s, #[trigger] out[i])
                < s.len() by {
                if i < d.len() {
                    assert(out[i] == d[i]);
                }
            }
        }
    }
}

/// No entry of a list of domains is empty or a comment, and none begins
/// or ends with white space.
pub proof fn lemma_entries(content: Seq<char>)
    ensures
        forall|i: int|
            0 <= i < entries(content).len() ==> {
                &&& is_entry(#[trigger] entries(content)[i])
                &&& trimmed(entries(content)[i]) == entries(content)[i]
            },
{
    let lines = split_on(content, '\n').map_values(|l: Seq<char>| trimmed(l));
    let keep = |l: Seq<char>| is_entry(l);
    assert forall|i: int| 0 <= i < entries(content).len() implies {
        &&& is_entry(#[trigger] entries(content)[i])
        &&& trimmed(entries(content)[i]) == entries(content)[i]
    } by {
        let e = entries(content)[i];
        lines.lemma_filter_pred(keep, i);
        assert(keep(e));
        lines.lemma_filter_contains_rev(keep, e);
        let k = choose|k: int| 0 <= k < lines.len() && lines[k] == e;
        crate::text::lemma_trimmed(split_on(content, '\n')[k]);
    }
}

/// What `read_domains` returns of a list holds no domain twice, holds the
/// domains in the order in which the list first shows them, holds every
/// entry of the list, and holds neither an empty line nor a comment.
pub proof fn lemma_read_domains(content: Seq<char>)
    ensures
        ({
            let domains = first_seen(entries(content));
            &&& domains.no_duplicates()
            &&& forall|x: Seq<char>| domains.contains(x) <==> entries(content).contains(x)
            &&& forall|i: int, j: int|
                0 <= i < j < domains.len() ==> first_at(entries(content), #[trigger] domains[i])
                    < first_at(entries(content), #[trigger] domains[j])
            &&& forall|i: int|
                0 <= i < domains.len() ==> is_entry(#[trigger] domains[i]) && trimmed(domains[i])
                    == domains[i]
        }),
{
    let all = entries(content);
    let domains = first_seen(all);
    lemma_first_seen(all);
    lemma_entries(content);
    assert forall|i: int| 0 <= i < domains.len() implies is_entry(#[trigger] domains[i])
        && trimmed(domains[i]) == domains[i] by {
        assert(domains.contains(domains[i]));
        assert(all.contains(domains[i]));
        let k = choose|k: int| 0 <= k < all.len() && all[k] == domains[i];
        assert(is_entry(all[k]));
    }
}

} // verus!
