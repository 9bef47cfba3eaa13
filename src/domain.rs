//! DNS-style domain names: their grammar and their length-prefixed label
//! encoding.

use vstd::prelude::*;
use vstd::slice::{slice_subrange, slice_to_vec};
use vstd::string::StrSliceExecFns;
use vstd::utf8::is_ascii_chars;

use crate::{Error, ErrorKind, Result};

verus! {

pub open spec fn is_alpha(c: char) -> bool {
    ('a' <= c && c <= 'z') || ('A' <= c && c <= 'Z')
}

pub open spec fn is_alnum(c: char) -> bool {
    is_alpha(c) || ('0' <= c && c <= '9')
}

/// The length of the label that ends just before index `i`: the number of
/// characters other than '.' that precede `i` without a '.' between.
pub open spec fn label_len_before(s: Seq<char>, i: int) -> nat
    decreases i,
{
    if i <= 0 || i > s.len() || s[i - 1] == '.' {
        0
    } else {
        label_len_before(s, i - 1) + 1
    }
}

/// The grammar of a domain name: at most 253 characters, each an ASCII letter,
/// digit or '.', the first a letter, and no label longer than 63.
pub open spec fn valid_domain(s: Seq<char>) -> bool {
    &&& s.len() <= 253
    &&& s.len() > 0 ==> is_alpha(s[0])
    &&& forall|i: int| 0 <= i < s.len() ==> s[i] == '.' || is_alnum(#[trigger] s[i])
    &&& forall|i: int| 0 < i <= s.len() ==> #[trigger] label_len_before(s, i) <= 63
}

/// Checks a domain name against the grammar.
pub fn domain_validate(domain: &str) -> (r: Result<()>)
    ensures
        r is Ok <==> valid_domain(domain@),
        r is Err ==> r->Err_0.kind() == ErrorKind::BadOption,
{
    let n = domain.unicode_len();
    if n > 253 {
        return Err(Error::BadOption("domain name too large".to_string()));
    }
    let ghost s = domain@;
    let mut label_size: usize = 0;
    let mut i: usize = 0;
    while i < n
        invariant
            n == s.len(),
            s == domain@,
            n <= 253,
            i <= n,
            label_size == label_len_before(s, i as int),
            label_size <= 63,
            i > 0 ==> is_alpha(s[0]),
            forall|k: int| 0 <= k < i ==> s[k] == '.' || is_alnum(#[trigger] s[k]),
            forall|k: int| 0 < k <= i ==> #[trigger] label_len_before(s, k) <= 63,
        decreases n - i,
    {
        let c = domain.get_char(i);
        if (c as u32) >= 128 {
            return Err(Error::BadOption("non-ascii domain name".to_string()));
        }
        if i == 0 && !(('a' <= c && c <= 'z') || ('A' <= c && c <= 'Z')) {
            return Err(Error::BadOption("domain doesn't start with a letter".to_string()));
        }
        if c == '.' {
            label_size = 0;
        } else {
            label_size += 1;
            if label_size > 63 {
                assert(label_len_before(s, i + 1) > 63);
                return Err(Error::BadOption("domain label too large".to_string()));
            }
            if !(('a' <= c && c <= 'z') || ('A' <= c && c <= 'Z') || ('0' <= c && c <= '9')) {
                return Err(Error::BadOption("invalid domain name".to_string()));
            }
        }
        i += 1;
    }
    Ok(())
}

/// The characters that ASCII bytes stand for.
pub open spec fn ascii_chars(b: Seq<u8>) -> Seq<char> {
    Seq::new(b.len(), |i: int| b[i] as char)
}

/// The bytes of ASCII characters.
pub open spec fn ascii_bytes(s: Seq<char>) -> Seq<u8> {
    Seq::new(s.len(), |i: int| s[i] as u8)
}

/// The labels of a name, split at each '.', empty ones included.
pub open spec fn split_labels(s: Seq<char>) -> Seq<Seq<char>>
    decreases s.len(),
{
    if s.len() == 0 {
        seq![Seq::empty()]
    } else {
        let p = split_labels(s.drop_last());
        if s.last() == '.' {
            p.push(Seq::empty())
        } else {
            p.update(p.len() - 1, p.last().push(s.last()))
        }
    }
}

/// Each non-empty label as a length byte followed by its bytes.
pub open spec fn labels_bytes(ls: Seq<Seq<char>>) -> Seq<u8>
    decreases ls.len(),
{
    if ls.len() == 0 {
        Seq::empty()
    } else if ls.last().len() == 0 {
        labels_bytes(ls.drop_last())
    } else {
        labels_bytes(ls.drop_last()) + seq![ls.last().len() as u8] + ascii_bytes(ls.last())
    }
}

/// The wire form of a name: its non-empty labels, then a zero byte if there
/// was any.
pub open spec fn name_bytes(s: Seq<char>) -> Seq<u8> {
    let b = labels_bytes(split_labels(s));
    if b.len() > 0 {
        b.push(0)
    } else {
        b
    }
}

/// The wire form of a list of names, or `BadOption` if one breaks the grammar.
pub open spec fn domains_bytes(ds: Seq<Seq<char>>) -> core::result::Result<Seq<u8>, ErrorKind>
    decreases ds.len(),
{
    if ds.len() == 0 {
        Ok(Seq::empty())
    } else {
        match domains_bytes(ds.drop_last()) {
            Err(e) => Err(e),
            Ok(b) => if valid_domain(ds.last()) {
                Ok(b + name_bytes(ds.last()))
            } else {
                Err(ErrorKind::BadOption)
            },
        }
    }
}

proof fn lemma_split_labels_len(s: Seq<char>)
    ensures
        split_labels(s).len() >= 1,
        split_labels(s).last().len() <= s.len(),
    decreases s.len(),
{
    if s.len() > 0 {
        lemma_split_labels_len(s.drop_last());
    }
}

/// Encodes the non-empty labels of an ASCII name.
fn encode_labels(domain: &str, v: &mut Vec<u8>)
    requires
        domain@.len() <= 253,
        is_ascii_chars(domain@),
        forall|i: int| 0 < i <= domain@.len() ==> #[trigger] label_len_before(domain@, i) <= 63,
    ensures
        final(v)@ == old(v)@ + labels_bytes(split_labels(domain@)),
{
    let ghost s = domain@;
    proof {
        vstd::string::is_ascii_spec_bytes(domain);
    }
    let bytes = domain.as_bytes();
    assert(bytes@ == ascii_bytes(s));
    let n = bytes.len();
    let mut start: usize = 0;
    let mut i: usize = 0;
    while i < n
        invariant
            n == s.len(),
            s == domain@,
            is_ascii_chars(s),
            bytes@ == ascii_bytes(s),
            start <= i <= n,
            i - start == label_len_before(s, i as int),
            start == 0 || s[start - 1] == '.',
            forall|k: int| start <= k < i ==> s[k] != '.',
            v@ == old(v)@ + labels_bytes(split_labels(s.subrange(0, i as int)).drop_last()),
            split_labels(s.subrange(0, i as int)).last() == s.subrange(start as int, i as int),
            forall|i: int| 0 < i <= s.len() ==> #[trigger] label_len_before(s, i) <= 63,
        decreases n - i,
    {
        assert(s.subrange(0, i + 1).drop_last() =~= s.subrange(0, i as int));
        assert(s.subrange(0, i + 1).last() == s[i as int]);
        let ghost p = split_labels(s.subrange(0, i as int));
        proof {
            lemma_split_labels_len(s.subrange(0, i as int));
        }
        assert(bytes@[i as int] == s[i as int] as u8);
        assert('\0' <= s[i as int] <= '\u{7f}');
        assert((s[i as int] as u8) as int == s[i as int] as int);
        if bytes[i] == 0x2e {
            assert(s[i as int] == '.');
            assert(split_labels(s.subrange(0, i + 1)) == p.push(Seq::empty()));
            assert(split_labels(s.subrange(0, i + 1)).drop_last() =~= p);
            assert(p =~= p.drop_last().push(p.last()));
            if i > start {
                v.push((i - start) as u8);
                let label = slice_to_vec(slice_subrange(bytes, start, i));
                assert(label@ =~= ascii_bytes(p.last()));
                v.extend_from_slice(label.as_slice());
                assert(v@ =~= old(v)@ + labels_bytes(p));
            } else {
                assert(v@ =~= old(v)@ + labels_bytes(p));
            }
            start = i + 1;
            assert(s.subrange(start as int, i + 1) =~= Seq::<char>::empty());
        } else {
            assert(s[i as int] != '.');
            assert(split_labels(s.subrange(0, i + 1)) == p.update(
                p.len() - 1,
                p.last().push(s[i as int]),
            ));
            assert(split_labels(s.subrange(0, i + 1)).drop_last() =~= p.drop_last());
            assert(s.subrange(start as int, i + 1) =~= s.subrange(start as int, i as int).push(
                s[i as int],
            ));
        }
        i += 1;
    }
    assert(s.subrange(0, n as int) =~= s);
    let ghost p = split_labels(s);
    proof {
        lemma_split_labels_len(s);
    }
    assert(p =~= p.drop_last().push(p.last()));
    if n > start {
        v.push((n - start) as u8);
        let label = slice_to_vec(slice_subrange(bytes, start, n));
        assert(label@ =~= ascii_bytes(p.last()));
        v.extend_from_slice(label.as_slice());
        assert(v@ =~= old(v)@ + labels_bytes(p));
    } else {
        assert(v@ =~= old(v)@ + labels_bytes(p));
    }
}

/// Encodes a list of domain names, each checked against the grammar first.
pub fn domain_list_encode(opt: &[String]) -> (r: Result<Vec<u8>>)
    ensures
        r is Ok <==> domains_bytes(crate::options::strings_view(opt@)) is Ok,
        r is Ok ==> r->Ok_0@ == domains_bytes(crate::options::strings_view(opt@))->Ok_0,
        r is Err ==> r->Err_0.kind() == ErrorKind::BadOption,
{
    let ghost ds = crate::options::strings_view(opt@);
    let mut v: Vec<u8> = Vec::new();
    let mut i: usize = 0;
    while i < opt.len()
        invariant
            i <= opt.len(),
            ds == crate::options::strings_view(opt@),
            domains_bytes(ds.subrange(0, i as int)) == Ok::<Seq<u8>, ErrorKind>(v@),
        decreases opt.len() - i,
    {
        let domain = opt[i].as_str();
        assert(ds.subrange(0, i + 1).drop_last() =~= ds.subrange(0, i as int));
        assert(ds.subrange(0, i + 1).last() == domain@);
        match domain_validate(domain) {
            Err(e) => {
                proof {
                    lemma_domains_bytes_err(ds, i as int + 1);
                }
                return Err(e);
            },
            Ok(()) => {},
        }
        assert(is_ascii_chars(domain@));
        let before = v.len();
        encode_labels(domain, &mut v);
        if v.len() > before {
            v.push(0);
        }
        assert(v@ =~= domains_bytes(ds.subrange(0, i as int))->Ok_0 + name_bytes(domain@));
        i += 1;
    }
    assert(ds.subrange(0, opt.len() as int) =~= ds);
    Ok(v)
}

proof fn lemma_domains_bytes_err(ds: Seq<Seq<char>>, n: int)
    requires
        0 < n <= ds.len(),
        domains_bytes(ds.subrange(0, n)) is Err,
    ensures
        domains_bytes(ds) is Err,
    decreases ds.len() - n,
{
    if n < ds.len() {
        assert(ds.subrange(0, n + 1).drop_last() =~= ds.subrange(0, n));
        lemma_domains_bytes_err(ds, n + 1);
    } else {
        assert(ds.subrange(0, n) =~= ds);
    }
}

/// `a` and `b` joined by a '.' where both are non-empty.
pub open spec fn join_labels(a: Seq<u8>, b: Seq<u8>) -> Seq<u8> {
    if a.len() == 0 {
        b
    } else if b.len() == 0 {
        a
    } else {
        a + seq![0x2eu8] + b
    }
}

/// Reads one name: labels, each a length byte and that many bytes, until a
/// zero byte or the end. Gives the text of the labels joined by '.' and the
/// number of bytes read; a label that runs past the end is `BadOption`.
pub open spec fn parse_name(p: Seq<u8>) -> core::result::Result<(Seq<u8>, nat), ErrorKind>
    decreases p.len(),
{
    if p.len() == 0 {
        Ok((Seq::empty(), 0))
    } else if p[0] == 0 {
        Ok((Seq::empty(), 1))
    } else if p[0] > p.len() - 1 {
        Err(ErrorKind::BadOption)
    } else {
        let n = p[0] as int;
        match parse_name(p.subrange(1 + n, p.len() as int)) {
            Err(e) => Err(e),
            Ok((t, k)) => Ok((join_labels(p.subrange(1, 1 + n), t), (1 + n + k) as nat)),
        }
    }
}

/// Whether every byte is below 128.
pub open spec fn is_ascii_bytes(b: Seq<u8>) -> bool {
    forall|i: int| 0 <= i < b.len() ==> #[trigger] b[i] < 128
}

/// Reads names until the bytes are used up; each must meet the grammar.
pub open spec fn parse_domains(p: Seq<u8>) -> core::result::Result<Seq<Seq<char>>, ErrorKind>
    decreases p.len(),
{
    if p.len() == 0 {
        Ok(Seq::empty())
    } else {
        match parse_name(p) {
            Err(e) => Err(e),
            Ok((t, k)) => if !is_ascii_bytes(t) || !valid_domain(ascii_chars(t)) {
                Err(ErrorKind::BadOption)
            } else if k == 0 || k > p.len() {
                Err(ErrorKind::BadOption)
            } else {
                match parse_domains(p.subrange(k as int, p.len() as int)) {
                    Err(e) => Err(e),
                    Ok(rest) => Ok(seq![ascii_chars(t)] + rest),
                }
            },
        }
    }
}

/// A name read from non-empty bytes takes at least one and at most all of
/// them.
pub proof fn lemma_parse_name_len(p: Seq<u8>)
    ensures
        parse_name(p) is Ok ==> parse_name(p)->Ok_0.1 <= p.len() && (p.len() > 0
            ==> parse_name(p)->Ok_0.1 >= 1),
    decreases p.len(),
{
    if p.len() > 0 && p[0] != 0 && p[0] <= p.len() - 1 {
        lemma_parse_name_len(p.subrange(1 + p[0] as int, p.len() as int));
    }
}

/// Reads one name from `p`, starting at `start`.
fn domain_parse(p: &[u8], start: usize) -> (r: Result<(Vec<u8>, usize)>)
    requires
        start <= p@.len(),
    ensures
        parse_name(p@.subrange(start as int, p@.len() as int)) is Ok <==> r is Ok,
        r is Ok ==> r->Ok_0.0@ == parse_name(p@.subrange(start as int, p@.len() as int))->Ok_0.0
            && r->Ok_0.1 == parse_name(p@.subrange(start as int, p@.len() as int))->Ok_0.1,
        r is Err ==> r->Err_0.kind() == ErrorKind::BadOption,
{
    let ghost whole = parse_name(p@.subrange(start as int, p@.len() as int));
    let mut text: Vec<u8> = Vec::new();
    let mut i: usize = start;
    loop
        invariant
            start <= i <= p@.len(),
            whole == parse_name(p@.subrange(start as int, p@.len() as int)),
            whole == match parse_name(p@.subrange(i as int, p@.len() as int)) {
                Err(e) => Err(e),
                Ok((t, k)) => Ok((join_labels(text@, t), (i - start + k) as nat)),
            },
        decreases p@.len() - i,
    {
        let ghost rest = p@.subrange(i as int, p@.len() as int);
        if i == p.len() {
            assert(text@ =~= join_labels(text@, Seq::empty()));
            return Ok((text, i - start));
        }
        let n = p[i] as usize;
        if n == 0 {
            assert(text@ =~= join_labels(text@, Seq::empty()));
            return Ok((text, i + 1 - start));
        }
        if n > p.len() - i - 1 {
            return Err(Error::BadOption("domain option overflow".to_string()));
        }
        let ghost label = p@.subrange(i + 1, i + 1 + n);
        assert(rest.subrange(1, 1 + n as int) =~= label);
        assert(rest.subrange(1 + n as int, rest.len() as int) =~= p@.subrange(
            i + 1 + n,
            p@.len() as int,
        ));
        let ghost old_text = text@;
        if text.len() > 0 {
            text.push(0x2e);
        }
        let l = slice_to_vec(slice_subrange(p, i + 1, i + 1 + n));
        text.extend_from_slice(l.as_slice());
        assert(text@ =~= join_labels(old_text, label));
        assert forall|t: Seq<u8>| join_labels(old_text, join_labels(label, t)) =~= join_labels(
            join_labels(old_text, label),
            t,
        ) by {}
        i = i + 1 + n;
    }
}

/// Relies on `String::from_utf8`: ASCII bytes are valid UTF-8, each byte the
/// character of the same value.
#[verifier::external_body]
fn ascii_string(b: Vec<u8>) -> (r: String)
    requires
        forall|i: int| 0 <= i < b@.len() ==> b@[i] < 128,
    ensures
        r@ == ascii_chars(b@),
{
    String::from_utf8(b).unwrap_or_default()
}

/// Reads the names of a domain-list option.
pub fn domain_list_parse(p: &[u8]) -> (r: Result<Vec<String>>)
    ensures
        parse_domains(p@) is Ok <==> r is Ok,
        r is Ok ==> crate::options::strings_view(r->Ok_0@) == parse_domains(p@)->Ok_0,
        r is Err ==> r->Err_0.kind() == ErrorKind::BadOption,
{
    let mut list: Vec<String> = Vec::new();
    let mut i: usize = 0;
    assert(p@.subrange(0, p@.len() as int) =~= p@);
    assert forall|r: Seq<Seq<char>>| crate::options::strings_view(list@) + r =~= r by {}
    while i < p.len()
        invariant
            i <= p@.len(),
            parse_domains(p@) == match parse_domains(p@.subrange(i as int, p@.len() as int)) {
                Err(e) => Err(e),
                Ok(rest) => Ok(crate::options::strings_view(list@) + rest),
            },
        decreases p@.len() - i,
    {
        let ghost rest = p@.subrange(i as int, p@.len() as int);
        proof {
            lemma_parse_name_len(rest);
        }
        let (text, k) = domain_parse(p, i)?;
        let mut j: usize = 0;
        while j < text.len()
            invariant
                j <= text@.len(),
                forall|m: int| 0 <= m < j ==> text@[m] < 128,
                i < p@.len(),
                rest == p@.subrange(i as int, p@.len() as int),
                parse_name(rest) is Ok,
                parse_name(rest)->Ok_0.0 == text@,
                parse_name(rest)->Ok_0.1 == k,
                parse_domains(p@) == match parse_domains(rest) {
                    Err(e) => Err(e),
                    Ok(rest) => Ok(crate::options::strings_view(list@) + rest),
                },
            decreases text@.len() - j,
        {
            if text[j] >= 128 {
                assert(!is_ascii_bytes(text@));
                assert(rest.len() > 0);
                assert(parse_name(rest)->Ok_0.0 == text@);
                assert(parse_domains(rest) is Err);
                return Err(Error::BadOption("non-ascii domain name".to_string()));
            }
            j += 1;
        }
        let ghost t = text@;
        let domain = ascii_string(text);
        domain_validate(domain.as_str())?;
        assert(rest.subrange(k as int, rest.len() as int) =~= p@.subrange(
            i + k,
            p@.len() as int,
        ));
        let ghost before = list@;
        list.push(domain);
        assert(crate::options::strings_view(list@) =~= crate::options::strings_view(before).push(
            ascii_chars(t),
        ));
        assert forall|r: Seq<Seq<char>>| crate::options::strings_view(before) + (seq![ascii_chars(t)] + r) =~= crate::options::strings_view(list@) + r by {}
        i = i + k;
    }
    assert(p@.subrange(i as int, p@.len() as int) =~= Seq::<u8>::empty());
    assert(crate::options::strings_view(list@) + Seq::<Seq<char>>::empty() =~= crate::options::strings_view(list@));
    Ok(list)
}

/// Every failure to read a name or a list of names is `BadOption`.
pub proof fn lemma_domain_errors(p: Seq<u8>)
    ensures
        parse_name(p) is Err ==> parse_name(p)->Err_0 == ErrorKind::BadOption,
        parse_domains(p) is Err ==> parse_domains(p)->Err_0 == ErrorKind::BadOption,
    decreases p.len(),
{
    if p.len() > 0 && p[0] != 0 && p[0] <= p.len() - 1 {
        lemma_domain_errors(p.subrange(1 + p[0] as int, p.len() as int));
    }
    if p.len() > 0 {
        match parse_name(p) {
            Ok((t, k)) => {
                if k > 0 && k <= p.len() {
                    lemma_domain_errors(p.subrange(k as int, p.len() as int));
                }
            },
            Err(_) => {},
        }
    }
}

/// Every failure to encode a list of names is `BadOption`.
pub proof fn lemma_domains_bytes_errors(ds: Seq<Seq<char>>)
    ensures
        domains_bytes(ds) is Err ==> domains_bytes(ds)->Err_0 == ErrorKind::BadOption,
    decreases ds.len(),
{
    if ds.len() > 0 {
        lemma_domains_bytes_errors(ds.drop_last());
    }
}

/// A name that encodes and decodes back to itself: it meets the grammar, is
/// not empty, and has no empty label (no '.' at its end, no two in a row).
pub open spec fn wf_name(s: Seq<char>) -> bool {
    &&& valid_domain(s)
    &&& labels_ok(s)
}

/// A non-empty name of ASCII letters, digits and dots whose labels are all
/// non-empty and at most 63 characters long.
pub open spec fn labels_ok(s: Seq<char>) -> bool {
    &&& s.len() > 0
    &&& s[0] != '.'
    &&& s.last() != '.'
    &&& forall|i: int| 0 <= i < s.len() - 1 && s[i] == '.' ==> #[trigger] s[i + 1] != '.'
    &&& forall|i: int| 0 <= i < s.len() ==> s[i] == '.' || is_alnum(#[trigger] s[i])
    &&& forall|i: int| 0 < i <= s.len() ==> #[trigger] label_len_before(s, i) <= 63
}

/// The index of the first '.' at or after `k`, or the length if there is none.
pub open spec fn dot_index(s: Seq<char>, k: int) -> int
    decreases s.len() - k,
{
    if k < 0 || k >= s.len() {
        s.len() as int
    } else if s[k] == '.' {
        k
    } else {
        dot_index(s, k + 1)
    }
}

proof fn lemma_dot_index(s: Seq<char>, k: int)
    requires
        0 <= k <= s.len(),
    ensures
        k <= dot_index(s, k) <= s.len(),
        forall|m: int| k <= m < dot_index(s, k) ==> s[m] != '.',
        dot_index(s, k) < s.len() ==> s[dot_index(s, k)] == '.',
    decreases s.len() - k,
{
    if k < s.len() && s[k] != '.' {
        lemma_dot_index(s, k + 1);
    }
}

proof fn lemma_split_dot_free(l: Seq<char>)
    requires
        forall|m: int| 0 <= m < l.len() ==> l[m] != '.',
    ensures
        split_labels(l) == seq![l],
    decreases l.len(),
{
    if l.len() > 0 {
        lemma_split_dot_free(l.drop_last());
        assert(l.drop_last().push(l.last()) =~= l);
        assert(seq![l.drop_last()].update(0, l.drop_last().push(l.last())) =~= seq![l]);
    } else {
        assert(l =~= Seq::<char>::empty());
    }
}

proof fn lemma_split_concat(a: Seq<char>, b: Seq<char>)
    ensures
        split_labels(a + seq!['.'] + b) == split_labels(a) + split_labels(b),
    decreases b.len(),
{
    let s = a + seq!['.'] + b;
    if b.len() == 0 {
        assert(s.drop_last() =~= a);
        assert(split_labels(a).push(Seq::empty()) =~= split_labels(a) + seq![Seq::<char>::empty()]);
    } else {
        lemma_split_concat(a, b.drop_last());
        assert(s.drop_last() =~= a + seq!['.'] + b.drop_last());
        assert(s.last() == b.last());
        lemma_split_nonempty(a);
        lemma_split_nonempty(b.drop_last());
        let pa = split_labels(a);
        let pb = split_labels(b.drop_last());
        if b.last() == '.' {
            assert((pa + pb).push(Seq::empty()) =~= pa + pb.push(Seq::empty()));
        } else {
            let p = pa + pb;
            assert(p.update(p.len() - 1, p.last().push(b.last())) =~= pa + pb.update(
                pb.len() - 1,
                pb.last().push(b.last()),
            ));
        }
    }
}

proof fn lemma_split_nonempty(s: Seq<char>)
    ensures
        split_labels(s).len() >= 1,
    decreases s.len(),
{
    if s.len() > 0 {
        lemma_split_nonempty(s.drop_last());
    }
}

/// The wire form of one non-empty label.
pub open spec fn label_bytes(l: Seq<char>) -> Seq<u8> {
    seq![l.len() as u8] + ascii_bytes(l)
}

proof fn lemma_labels_bytes_cons(l: Seq<char>, ls: Seq<Seq<char>>)
    requires
        l.len() > 0,
    ensures
        labels_bytes(seq![l] + ls) == label_bytes(l) + labels_bytes(ls),
    decreases ls.len(),
{
    let all = seq![l] + ls;
    if ls.len() == 0 {
        assert(all =~= seq![l]);
        assert(all.drop_last() =~= Seq::<Seq<char>>::empty());
        assert(labels_bytes(Seq::<Seq<char>>::empty()) == Seq::<u8>::empty());
        assert(labels_bytes(all) == labels_bytes(all.drop_last()) + seq![l.len() as u8]
            + ascii_bytes(l));
        assert(labels_bytes(ls) == Seq::<u8>::empty());
        assert(label_bytes(l) + Seq::<u8>::empty() =~= label_bytes(l));
        assert(Seq::<u8>::empty() + seq![l.len() as u8] + ascii_bytes(l) =~= label_bytes(l));
    } else {
        lemma_labels_bytes_cons(l, ls.drop_last());
        assert(all.drop_last() =~= seq![l] + ls.drop_last());
        assert(all.last() == ls.last());
        let a = label_bytes(l);
        let b = labels_bytes(ls.drop_last());
        assert(labels_bytes(all.drop_last()) == a + b);
        if ls.last().len() > 0 {
            let c = seq![ls.last().len() as u8] + ascii_bytes(ls.last());
            assert(labels_bytes(all) == a + b + seq![ls.last().len() as u8] + ascii_bytes(
                ls.last(),
            ));
            assert(labels_bytes(ls) == b + seq![ls.last().len() as u8] + ascii_bytes(ls.last()));
            assert(a + b + seq![ls.last().len() as u8] + ascii_bytes(ls.last()) =~= a + (b
                + seq![ls.last().len() as u8] + ascii_bytes(ls.last())));
        } else {
            assert(labels_bytes(all) == a + b);
            assert(labels_bytes(ls) == b);
        }
    }
}

proof fn lemma_label_len_dot_free(s: Seq<char>, i: int)
    requires
        0 <= i <= s.len(),
        forall|m: int| 0 <= m < i ==> s[m] != '.',
    ensures
        label_len_before(s, i) == i,
    decreases i,
{
    if i > 0 {
        lemma_label_len_dot_free(s, i - 1);
    }
}

proof fn lemma_label_len_shift(s: Seq<char>, k: int, i: int)
    requires
        1 <= k <= s.len(),
        s[k - 1] == '.',
        0 <= i <= s.len() - k,
    ensures
        label_len_before(s.subrange(k, s.len() as int), i) == label_len_before(s, k + i),
    decreases i,
{
    if i > 0 {
        lemma_label_len_shift(s, k, i - 1);
        assert(s.subrange(k, s.len() as int)[i - 1] == s[k + i - 1]);
    }
}

/// A name whose labels are all non-empty reads back from its wire form,
/// followed by anything, as its own bytes; the wire form is two bytes longer
/// than the name.
pub proof fn lemma_name_roundtrip(s: Seq<char>, rest: Seq<u8>)
    requires
        labels_ok(s),
    ensures
        labels_bytes(split_labels(s)).len() == s.len() + 1,
        name_bytes(s) == labels_bytes(split_labels(s)).push(0),
        parse_name(name_bytes(s) + rest) == Ok::<(Seq<u8>, nat), ErrorKind>(
            (ascii_bytes(s), (s.len() + 2) as nat),
        ),
    decreases s.len(),
{
    lemma_dot_index(s, 0);
    let k = dot_index(s, 0);
    if k == s.len() {
        lemma_split_dot_free(s);
        lemma_label_len_dot_free(s, s.len() as int);
        lemma_labels_bytes_cons(s, Seq::empty());
        assert(seq![s] + Seq::<Seq<char>>::empty() =~= seq![s]);
        assert(labels_bytes(Seq::<Seq<char>>::empty()) == Seq::<u8>::empty());
        assert(label_bytes(s) + Seq::<u8>::empty() =~= label_bytes(s));
        assert(labels_bytes(seq![s]) == label_bytes(s));
        let p = name_bytes(s) + rest;
        assert(p[0] == s.len() as u8);
        assert(p.subrange(1, 1 + s.len() as int) =~= ascii_bytes(s));
        let q = p.subrange(1 + s.len() as int, p.len() as int);
        assert(q[0] == 0);
        assert(s.len() <= 63);
        assert(p[0] as int == s.len());
        assert(parse_name(q) == Ok::<(Seq<u8>, nat), ErrorKind>((Seq::empty(), 1nat)));
        assert(join_labels(ascii_bytes(s), Seq::empty()) == ascii_bytes(s));
        assert(parse_name(p) == Ok::<(Seq<u8>, nat), ErrorKind>(
            (join_labels(p.subrange(1, 1 + s.len() as int), Seq::empty()), (1 + s.len() + 1) as nat),
        ));
    } else {
        let l = s.subrange(0, k);
        let s2 = s.subrange(k + 1, s.len() as int);
        assert(k >= 1);
        assert(k < s.len() - 1);
        assert(s2.len() > 0);
        assert(s2[0] == s[k + 1]);
        assert(s2.last() == s.last());
        assert forall|i: int| 0 <= i < s2.len() - 1 && s2[i] == '.' implies #[trigger] s2[i + 1]
            != '.' by {
            assert(s2[i] == s[k + 1 + i] && s2[i + 1] == s[k + 1 + i + 1]);
        }
        assert forall|i: int| 0 <= i < s2.len() implies s2[i] == '.' || is_alnum(
            #[trigger] s2[i],
        ) by {
            assert(s2[i] == s[k + 1 + i]);
        }
        assert forall|i: int| 0 < i <= s2.len() implies #[trigger] label_len_before(s2, i)
            <= 63 by {
            lemma_label_len_shift(s, k + 1, i);
            assert(label_len_before(s, k + 1 + i) <= 63);
        }
        lemma_name_roundtrip(s2, rest);
        assert(s =~= l + seq!['.'] + s2);
        lemma_split_concat(l, s2);
        lemma_split_dot_free(l);
        lemma_labels_bytes_cons(l, split_labels(s2));
        lemma_label_len_dot_free(s, k);
        assert(label_len_before(s, k) <= 63);
        let ls2 = labels_bytes(split_labels(s2));
        assert(labels_bytes(split_labels(s)) == label_bytes(l) + ls2);
        assert(name_bytes(s) =~= label_bytes(l) + name_bytes(s2));
        let p = name_bytes(s) + rest;
        assert(p[0] == k as u8);
        assert(p.subrange(1, 1 + k) =~= ascii_bytes(l));
        assert(p.subrange(1 + k, p.len() as int) =~= name_bytes(s2) + rest);
        assert(ascii_bytes(s) =~= ascii_bytes(l) + seq![0x2eu8] + ascii_bytes(s2));
        assert(join_labels(ascii_bytes(l), ascii_bytes(s2)) == ascii_bytes(l) + seq![0x2eu8]
            + ascii_bytes(s2));
        assert(p[0] as int == k);
        assert(parse_name(p.subrange(1 + k, p.len() as int)) == Ok::<(Seq<u8>, nat), ErrorKind>(
            (ascii_bytes(s2), (s2.len() + 2) as nat),
        ));
        assert(parse_name(p) == Ok::<(Seq<u8>, nat), ErrorKind>(
            (join_labels(ascii_bytes(l), ascii_bytes(s2)), (1 + k + s2.len() + 2) as nat),
        ));
    }
}

proof fn lemma_domains_bytes_cons(ds: Seq<Seq<char>>)
    requires
        ds.len() > 0,
        domains_bytes(ds) is Ok,
    ensures
        valid_domain(ds[0]),
        domains_bytes(ds.drop_first()) is Ok,
        domains_bytes(ds)->Ok_0 == name_bytes(ds[0]) + domains_bytes(ds.drop_first())->Ok_0,
    decreases ds.len(),
{
    if ds.len() == 1 {
        assert(ds.drop_last() =~= Seq::<Seq<char>>::empty());
        assert(ds.drop_first() =~= Seq::<Seq<char>>::empty());
        assert(Seq::<u8>::empty() + name_bytes(ds[0]) =~= name_bytes(ds[0]) + Seq::<u8>::empty());
    } else {
        lemma_domains_bytes_cons(ds.drop_last());
        assert(ds.drop_first().drop_last() =~= ds.drop_last().drop_first());
        assert(ds.drop_first().last() == ds.last());
        let a = name_bytes(ds[0]);
        let b = domains_bytes(ds.drop_last().drop_first())->Ok_0;
        let c = name_bytes(ds.last());
        assert(a + b + c =~= a + (b + c));
    }
}

proof fn lemma_ascii_round(s: Seq<char>)
    requires
        forall|i: int| 0 <= i < s.len() ==> s[i] == '.' || is_alnum(#[trigger] s[i]),
    ensures
        is_ascii_bytes(ascii_bytes(s)),
        ascii_chars(ascii_bytes(s)) == s,
{
    assert forall|i: int| 0 <= i < s.len() implies (#[trigger] ascii_bytes(s)[i]) < 128 && (
    ascii_bytes(s)[i] as char) == s[i] by {
        assert(s[i] == '.' || is_alnum(s[i]));
        assert((s[i] as u32) < 128);
    }
    assert(ascii_chars(ascii_bytes(s)) =~= s);
}

/// A list of well-formed names reads back from its wire form.
pub proof fn lemma_domains_roundtrip(ds: Seq<Seq<char>>)
    requires
        domains_bytes(ds) is Ok,
        forall|i: int| 0 <= i < ds.len() ==> wf_name(#[trigger] ds[i]),
    ensures
        parse_domains(domains_bytes(ds)->Ok_0) == Ok::<Seq<Seq<char>>, ErrorKind>(ds),
    decreases ds.len(),
{
    if ds.len() == 0 {
        assert(domains_bytes(ds) == Ok::<Seq<u8>, ErrorKind>(Seq::empty()));
        assert(ds =~= Seq::<Seq<char>>::empty());
    } else {
        lemma_domains_bytes_cons(ds);
        assert forall|i: int| 0 <= i < ds.drop_first().len() implies wf_name(
            #[trigger] ds.drop_first()[i],
        ) by {
            assert(ds.drop_first()[i] == ds[i + 1]);
        }
        lemma_domains_roundtrip(ds.drop_first());
        let s = ds[0];
        assert(wf_name(s));
        let rest = domains_bytes(ds.drop_first())->Ok_0;
        let p = domains_bytes(ds)->Ok_0;
        assert(p == name_bytes(s) + rest);
        lemma_name_roundtrip(s, rest);
        lemma_ascii_round(s);
        assert(p.len() > 0);
        assert(p.subrange(s.len() + 2 as int, p.len() as int) =~= rest);
        assert(seq![s] + ds.drop_first() =~= ds);
    }
}

proof fn lemma_label_run(s: Seq<char>, i: int, j: int)
    requires
        0 <= i <= j <= s.len(),
        forall|m: int| i <= m < j ==> s[m] != '.',
    ensures
        label_len_before(s, j) >= j - i,
    decreases j - i,
{
    if j > i {
        lemma_label_run(s, i, j - 1);
    }
}

/// The grammar rejects a name with a character outside ASCII, a name longer
/// than 253 characters, and a name that does not start with a letter.
pub proof fn lemma_domain_grammar(s: Seq<char>)
    ensures
        (exists|i: int| 0 <= i < s.len() && (#[trigger] s[i] as u32) >= 128) ==> !valid_domain(s),
        s.len() > 253 ==> !valid_domain(s),
        s.len() > 0 && !is_alpha(s[0]) ==> !valid_domain(s),
{
}

/// The grammar rejects a name with a run of 64 characters, starting at `i`,
/// none of them a '.': a label longer than 63.
pub proof fn lemma_long_label_rejected(s: Seq<char>, i: int)
    requires
        0 <= i,
        i + 64 <= s.len(),
        forall|m: int| i <= m < i + 64 ==> s[m] != '.',
    ensures
        !valid_domain(s),
{
    lemma_label_run(s, i, i + 64);
}

} // verus!
