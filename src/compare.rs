//! Order-independent, multiplicity-aware comparison of option sequences.
//!
//! Each option on the left is matched with the first option on the right that
//! is equal to it and not matched yet. Two sequences are equal when they have
//! the same length and every option finds a match. Options holding nested
//! options (IA_NA, IA_TA, IAADDR) compare their nested sequences the same way.

use vstd::prelude::*;

use crate::options::{
    views, ClassData, Dhcpv6Option, Duid, IaAddrOption, IaNaOption, IaTaOption, OptionView,
};
use crate::addr::Ipv6Addr;
use crate::{Error, Result};

verus! {

broadcast use crate::options::lemma_views;

/// Whether two option views are equal, nested option sequences compared as
/// multisets.
pub open spec fn view_eq(x: OptionView, y: OptionView) -> bool
    decreases x, 0int, 0int,
{
    match x {
        OptionView::IaNa(id, t1, t2, xs) => match y {
            OptionView::IaNa(id2, t1_2, t2_2, ys) => id == id2 && t1 == t1_2 && t2 == t2_2
                && options_match(xs, ys),
            _ => false,
        },
        OptionView::IaTa(id, xs) => match y {
            OptionView::IaTa(id2, ys) => id == id2 && options_match(xs, ys),
            _ => false,
        },
        OptionView::IaAddr(a, p, v, xs) => match y {
            OptionView::IaAddr(a2, p2, v2, ys) => a == a2 && p == p2 && v == v2 && options_match(
                xs,
                ys,
            ),
            _ => false,
        },
        _ => x == y,
    }
}

/// Whether two option sequences hold the same options, in any order, each as
/// many times.
pub open spec fn options_match(a: Seq<OptionView>, b: Seq<OptionView>) -> bool
    decreases a, 2int, 0int,
{
    a.len() == b.len() && greedy(a, b, a.len() as int).1 == 0
}

/// Matching the first `i` options of `a` against `b`: which options of `b`
/// are taken, and how many of the `i` found no match.
pub open spec fn greedy(a: Seq<OptionView>, b: Seq<OptionView>, i: int) -> (Seq<bool>, nat)
    decreases a, 1int, i,
{
    if i <= 0 || i > a.len() {
        (Seq::new(b.len(), |k: int| false), 0)
    } else {
        let (used, missing) = greedy(a, b, i - 1);
        let j = first_match(a[i - 1], b, used, 0);
        if j < b.len() {
            (used.update(j, true), missing)
        } else {
            (used, missing + 1)
        }
    }
}

/// The first index from `k` on of an option of `b` equal to `x` and not
/// taken, or the length of `b` if there is none.
pub open spec fn first_match(x: OptionView, b: Seq<OptionView>, used: Seq<bool>, k: int) -> int
    decreases x, 1int, b.len() - k,
{
    if k < 0 || k >= b.len() {
        b.len() as int
    } else if !used[k] && view_eq(x, b[k]) {
        k
    } else {
        first_match(x, b, used, k + 1)
    }
}

/// How many options of `a` find no match in `b`.
pub open spec fn unmatched(a: Seq<OptionView>, b: Seq<OptionView>) -> nat {
    greedy(a, b, a.len() as int).1
}

proof fn lemma_greedy_len(a: Seq<OptionView>, b: Seq<OptionView>, i: int)
    ensures
        greedy(a, b, i).0.len() == b.len(),
        greedy(a, b, i).1 <= if i <= 0 || i > a.len() { 0 } else { i },
    decreases i,
{
    if !(i <= 0 || i > a.len()) {
        lemma_greedy_len(a, b, i - 1);
        lemma_first_match_range(a[i - 1], b, greedy(a, b, i - 1).0, 0);
    }
}

proof fn lemma_first_match_range(x: OptionView, b: Seq<OptionView>, used: Seq<bool>, k: int)
    requires
        0 <= k,
    ensures
        k <= first_match(x, b, used, k) <= b.len() || (k > b.len() && first_match(x, b, used, k)
            == b.len()),
        first_match(x, b, used, k) < b.len() ==> !used[first_match(x, b, used, k)] && view_eq(
            x,
            b[first_match(x, b, used, k)],
        ),
    decreases b.len() - k,
{
    if k < b.len() && !(!used[k] && view_eq(x, b[k])) {
        lemma_first_match_range(x, b, used, k + 1);
    }
}

/// Whether two byte vectors hold the same bytes.
fn same_bytes(a: &Vec<u8>, b: &Vec<u8>) -> (r: bool)
    ensures
        r == (a@ == b@),
{
    let r = a == b;
    if r {
        assert(a@ =~= b@);
    }
    r
}

fn same_u16s(a: &Vec<u16>, b: &Vec<u16>) -> (r: bool)
    ensures
        r == (a@ == b@),
{
    let r = a == b;
    if r {
        assert(a@ =~= b@);
    }
    r
}

fn same_classes(a: &Vec<ClassData>, b: &Vec<ClassData>) -> (r: bool)
    ensures
        r == (crate::options::classes_view(a@) == crate::options::classes_view(b@)),
{
    if a.len() != b.len() {
        assert(crate::options::classes_view(a@).len() != crate::options::classes_view(b@).len());
        return false;
    }
    let mut i: usize = 0;
    while i < a.len()
        invariant
            a.len() == b.len(),
            i <= a.len(),
            forall|k: int|
                0 <= k < i ==> #[trigger] crate::options::classes_view(a@)[k]
                    == crate::options::classes_view(b@)[k],
        decreases a.len() - i,
    {
        if a[i].len != b[i].len || !same_bytes(&a[i].data, &b[i].data) {
            assert(crate::options::classes_view(a@)[i as int] != crate::options::classes_view(
                b@,
            )[i as int]);
            return false;
        }
        i += 1;
    }
    assert(crate::options::classes_view(a@) =~= crate::options::classes_view(b@));
    true
}

fn same_addrs(a: &Vec<Ipv6Addr>, b: &Vec<Ipv6Addr>) -> (r: bool)
    ensures
        r == (crate::options::addrs_view(a@) == crate::options::addrs_view(b@)),
{
    if a.len() != b.len() {
        assert(crate::options::addrs_view(a@).len() != crate::options::addrs_view(b@).len());
        return false;
    }
    let mut i: usize = 0;
    while i < a.len()
        invariant
            a.len() == b.len(),
            i <= a.len(),
            forall|k: int|
                0 <= k < i ==> #[trigger] crate::options::addrs_view(a@)[k]
                    == crate::options::addrs_view(b@)[k],
        decreases a.len() - i,
    {
        if !a[i].same(&b[i]) {
            assert(crate::options::addrs_view(a@)[i as int] != crate::options::addrs_view(
                b@,
            )[i as int]);
            return false;
        }
        i += 1;
    }
    assert(crate::options::addrs_view(a@) =~= crate::options::addrs_view(b@));
    true
}

fn same_strings(a: &Vec<String>, b: &Vec<String>) -> (r: bool)
    ensures
        r == (crate::options::strings_view(a@) == crate::options::strings_view(b@)),
{
    if a.len() != b.len() {
        assert(crate::options::strings_view(a@).len() != crate::options::strings_view(b@).len());
        return false;
    }
    let mut i: usize = 0;
    while i < a.len()
        invariant
            a.len() == b.len(),
            i <= a.len(),
            forall|k: int|
                0 <= k < i ==> #[trigger] crate::options::strings_view(a@)[k]
                    == crate::options::strings_view(b@)[k],
        decreases a.len() - i,
    {
        if a[i] != b[i] {
            assert(crate::options::strings_view(a@)[i as int] != crate::options::strings_view(
                b@,
            )[i as int]);
            return false;
        }
        i += 1;
    }
    assert(crate::options::strings_view(a@) =~= crate::options::strings_view(b@));
    true
}

fn same_duid(a: &Duid, b: &Duid) -> (r: bool)
    ensures
        r == (a@ == b@),
{
    match (a, b) {
        (Duid::Llt(x), Duid::Llt(y)) => x.type_code == y.type_code && x.hw_type == y.hw_type
            && x.time == y.time && same_bytes(&x.link_layer, &y.link_layer),
        (Duid::En(x), Duid::En(y)) => x.type_code == y.type_code && x.enterprise_code
            == y.enterprise_code && same_bytes(&x.identifier, &y.identifier),
        (Duid::Ll(x), Duid::Ll(y)) => x.type_code == y.type_code && x.hw_type == y.hw_type
            && same_bytes(&x.link_layer, &y.link_layer),
        _ => false,
    }
}

/// Whether two options are equal, nested option sequences compared as
/// multisets.
pub fn option_eq(a: &Dhcpv6Option, b: &Dhcpv6Option) -> (r: bool)
    ensures
        r == view_eq(a@, b@),
    decreases *a, 0int, 0int,
{
    match (a, b) {
        (Dhcpv6Option::ClientId(x), Dhcpv6Option::ClientId(y)) => same_duid(x, y),
        (Dhcpv6Option::ServerId(x), Dhcpv6Option::ServerId(y)) => same_duid(x, y),
        (Dhcpv6Option::IaNa(x), Dhcpv6Option::IaNa(y)) => {
            x.iaid == y.iaid && x.t1 == y.t1 && x.t2 == y.t2 && compare_options(
                x.options.as_slice(),
                y.options.as_slice(),
            ).is_ok()
        },
        (Dhcpv6Option::IaTa(x), Dhcpv6Option::IaTa(y)) => {
            x.iaid == y.iaid && compare_options(x.options.as_slice(), y.options.as_slice()).is_ok()
        },
        (Dhcpv6Option::IaAddr(x), Dhcpv6Option::IaAddr(y)) => {
            x.addr.same(&y.addr) && x.preferred_lifetime == y.preferred_lifetime
                && x.valid_lifetime == y.valid_lifetime && compare_options(
                x.options.as_slice(),
                y.options.as_slice(),
            ).is_ok()
        },
        (Dhcpv6Option::Oro(x), Dhcpv6Option::Oro(y)) => same_u16s(x, y),
        (Dhcpv6Option::Preference(x), Dhcpv6Option::Preference(y)) => *x == *y,
        (Dhcpv6Option::ElapsedTime(x), Dhcpv6Option::ElapsedTime(y)) => *x == *y,
        (Dhcpv6Option::RelayMsg(x), Dhcpv6Option::RelayMsg(y)) => same_bytes(x, y),
        (Dhcpv6Option::Auth, Dhcpv6Option::Auth) => true,
        (Dhcpv6Option::Unicast(x), Dhcpv6Option::Unicast(y)) => x.same(y),
        (Dhcpv6Option::StatusCode(x), Dhcpv6Option::StatusCode(y)) => x.code == y.code
            && same_bytes(&x.msg, &y.msg),
        (Dhcpv6Option::RapidCommit, Dhcpv6Option::RapidCommit) => true,
        (Dhcpv6Option::UserClass(x), Dhcpv6Option::UserClass(y)) => same_classes(x, y),
        (Dhcpv6Option::VendorClass(x), Dhcpv6Option::VendorClass(y)) => x.enterprise_number
            == y.enterprise_number && same_classes(&x.data, &y.data),
        (Dhcpv6Option::VendorOpts(x), Dhcpv6Option::VendorOpts(y)) => x.enterprise_number
            == y.enterprise_number && same_bytes(&x.data, &y.data),
        (Dhcpv6Option::InterfaceId(x), Dhcpv6Option::InterfaceId(y)) => same_bytes(x, y),
        (Dhcpv6Option::ReconfMsg(x), Dhcpv6Option::ReconfMsg(y)) => *x == *y,
        (Dhcpv6Option::ReconfAccept, Dhcpv6Option::ReconfAccept) => true,
        (Dhcpv6Option::DnsServers(x), Dhcpv6Option::DnsServers(y)) => same_addrs(x, y),
        (Dhcpv6Option::DomainList(x), Dhcpv6Option::DomainList(y)) => same_strings(x, y),
        (Dhcpv6Option::Other(x), Dhcpv6Option::Other(y)) => x.code == y.code && x.len == y.len
            && same_bytes(&x.data, &y.data),
        _ => false,
    }
}

/// How many options of `a` find no equal, not yet matched option in `b`,
/// taking each option of `a` in turn.
pub fn count_unmatched(a: &[Dhcpv6Option], b: &[Dhcpv6Option]) -> (r: usize)
    ensures
        r == unmatched(views(a@), views(b@)),
    decreases a@, 1int, 0int,
{
    let ghost va = views(a@);
    let ghost vb = views(b@);
    let mut used: Vec<bool> = Vec::new();
    let mut k: usize = 0;
    while k < b.len()
        invariant
            k <= b.len(),
            used@ == Seq::new(k as nat, |x: int| false),
        decreases b.len() - k,
    {
        used.push(false);
        k += 1;
        assert(used@ =~= Seq::new(k as nat, |x: int| false));
    }
    let mut missing: usize = 0;
    let mut i: usize = 0;
    while i < a.len()
        invariant
            i <= a.len(),
            va == views(a@),
            vb == views(b@),
            used@ == greedy(va, vb, i as int).0,
            missing == greedy(va, vb, i as int).1,
            missing <= i,
        decreases a.len() - i,
    {
        proof {
            lemma_greedy_len(va, vb, i as int);
        }
        let ghost before = used@;
        let mut j: usize = 0;
        let mut found = false;
        while j < b.len() && !found
            invariant
                i < a.len(),
                j <= b.len(),
                va == views(a@),
                vb == views(b@),
                before.len() == b.len(),
                !found ==> used@ == before && first_match(va[i as int], vb, before, 0)
                    == first_match(va[i as int], vb, before, j as int),
                found ==> j < b.len() && first_match(va[i as int], vb, before, 0) == j
                    && used@ == before.update(j as int, true),
            decreases b.len() - j, if found { 0int } else { 1int },
        {
            proof {
                crate::options::lemma_views(a@);
                crate::options::lemma_views(b@);
            }
            assert(views(a@)[i as int] == a@[i as int]@ && views(b@)[j as int] == b@[j as int]@);
            if !used[j] && option_eq(&a[i], &b[j]) {
                assert(first_match(va[i as int], vb, before, j as int) == j);
                used.set(j, true);
                found = true;
            } else {
                assert(first_match(va[i as int], vb, before, j as int) == first_match(
                    va[i as int],
                    vb,
                    before,
                    j + 1,
                ));
                j += 1;
            }
        }
        if !found {
            missing += 1;
        }
        i += 1;
    }
    missing
}

/// The text of the error for sequences of equal length that differ.
pub uninterp spec fn mismatch_text(extra: nat, missing: nat) -> Seq<char>;

/// Relies on std's `format!`: it writes the two counts into the message.
#[verifier::external_body]
fn mismatch_message(extra: usize, missing: usize) -> (r: String)
    ensures
        r@ == mismatch_text(extra as nat, missing as nat),
{
    format!("{} extra options.  {} missing options.", extra, missing)
}

/// Compares two option sequences, ignoring order but not multiplicity.
pub fn compare_options(a: &[Dhcpv6Option], b: &[Dhcpv6Option]) -> (r: Result<()>)
    ensures
        r is Ok <==> options_match(views(a@), views(b@)),
        r is Err ==> r->Err_0.kind() == crate::ErrorKind::Other,
        r is Err && a@.len() == b@.len() ==> (r->Err_0 matches Error::Other(s) && s@
            == mismatch_text(
            unmatched(views(a@), views(b@)),
            unmatched(views(a@), views(b@)),
        )),
    decreases a@, 2int, 0int,
{
    if a.len() != b.len() {
        return Err(Error::Other("option counts differ".to_string()));
    }
    let n = count_unmatched(a, b);
    if n > 0 {
        Err(Error::Other(mismatch_message(n, n)))
    } else {
        Ok(())
    }
}

} // verus!
