//! Laws of the codec and of the comparator, proved over the spec model.

use vstd::prelude::*;

use crate::buffer::be16;
use crate::compare::{first_match, greedy, options_match, unmatched, view_eq};
use crate::options::OptionView;
use crate::wire::{option_bytes, option_code, parse_options, payload_bytes, u16_be};
use crate::{message_bytes, ClientMsg};

verus! {

/// Encoding is a function of the message's value: two messages with the
/// same value encode to the same bytes, or fail alike.
pub proof fn lemma_encode_deterministic(a: ClientMsg, b: ClientMsg)
    requires
        a@ == b@,
    ensures
        message_bytes(a@) == message_bytes(b@),
{
}

/// Whether a code names none of the options this library knows.
pub open spec fn is_unassigned(code: u16) -> bool {
    !(1 <= code <= 9 || 11 <= code <= 20 || code == 23 || code == 24)
}

/// An option with an unassigned code decodes to `Other` with its code,
/// length and bytes, and encodes back to the same bytes.
pub proof fn lemma_unknown_option_preserved(code: u16, data: Seq<u8>)
    requires
        is_unassigned(code),
        data.len() <= 0xffff,
    ensures
        ({
            let tlv = u16_be(code as int) + u16_be(data.len() as int) + data;
            &&& parse_options(tlv) == Ok::<Seq<OptionView>, crate::ErrorKind>(
                seq![OptionView::Other(code, data.len(), data)],
            )
            &&& option_bytes(OptionView::Other(code, data.len(), data)) == Ok::<
                Seq<u8>,
                crate::ErrorKind,
            >(tlv)
        }),
{
    let tlv = u16_be(code as int) + u16_be(data.len() as int) + data;
    assert(tlv.subrange(0, 2) =~= u16_be(code as int));
    assert(tlv.subrange(2, 4) =~= u16_be(data.len() as int));
    crate::roundtrip::lemma_u16_at(code as int, tlv, 0);
    crate::roundtrip::lemma_u16_at(data.len() as int, tlv, 2);
    assert(tlv.subrange(4, 4 + data.len() as int) =~= data);
    assert(tlv.subrange(4 + data.len() as int, tlv.len() as int) =~= Seq::<u8>::empty());
    assert(parse_options(Seq::<u8>::empty()) == Ok::<Seq<OptionView>, crate::ErrorKind>(
        Seq::empty(),
    ));
    assert(seq![OptionView::Other(code, data.len(), data)] + Seq::<OptionView>::empty() =~= seq![
        OptionView::Other(code, data.len(), data),
    ]);
    assert(be16(tlv, 0) as u16 == code);
    assert(crate::wire::parse_payload(code, data) == Ok::<OptionView, crate::ErrorKind>(
        OptionView::Other(code, data.len(), data),
    ));
    assert(payload_bytes(OptionView::Other(code, data.len(), data)) == Ok::<
        Seq<u8>,
        crate::ErrorKind,
    >(data));
}

/// The first match from `k` is `j` when every option between is taken or
/// differs, and `j` is free and equal.
proof fn lemma_first_match_skip(x: OptionView, b: Seq<OptionView>, used: Seq<bool>, k: int, j: int)
    requires
        0 <= k <= j < b.len(),
        forall|m: int| k <= m < j ==> used[m] || !view_eq(x, b[m]),
        !used[j],
        view_eq(x, b[j]),
    ensures
        first_match(x, b, used, k) == j,
    decreases j - k,
{
    if k < j {
        lemma_first_match_skip(x, b, used, k + 1, j);
    }
}

/// Every option equals itself.
pub proof fn lemma_view_eq_refl(x: OptionView)
    ensures
        view_eq(x, x),
    decreases x, 0int,
{
    match x {
        OptionView::IaNa(_, _, _, xs) => lemma_options_match_refl(xs),
        OptionView::IaTa(_, xs) => lemma_options_match_refl(xs),
        OptionView::IaAddr(_, _, _, xs) => lemma_options_match_refl(xs),
        _ => {},
    }
}

/// Every option sequence matches itself.
pub proof fn lemma_options_match_refl(xs: Seq<OptionView>)
    ensures
        options_match(xs, xs),
    decreases xs, xs.len() + 1,
{
    lemma_greedy_refl(xs, xs.len() as int);
}

proof fn lemma_greedy_refl(xs: Seq<OptionView>, i: int)
    requires
        0 <= i <= xs.len(),
    ensures
        greedy(xs, xs, i).0 == Seq::new(xs.len(), |k: int| k < i),
        greedy(xs, xs, i).1 == 0,
    decreases xs, i,
{
    if i == 0 {
        assert(Seq::new(xs.len(), |k: int| false) =~= Seq::new(xs.len(), |k: int| k < i));
    } else {
        lemma_greedy_refl(xs, i - 1);
        lemma_view_eq_refl(xs[i - 1]);
        let used = greedy(xs, xs, i - 1).0;
        lemma_first_match_skip(xs[i - 1], xs, used, 0, i - 1);
        assert(used.update(i - 1, true) =~= Seq::new(xs.len(), |k: int| k < i));
    }
}

/// Order does not matter but multiplicity does: `[a, a, b]` matches
/// `[a, b, a]`, while `[a, a]` against `[a, b]` leaves one option of each
/// side unmatched.
pub proof fn lemma_comparator_order_and_multiplicity(a: OptionView, b: OptionView)
    requires
        !view_eq(a, b),
    ensures
        options_match(seq![a, a, b], seq![a, b, a]),
        !options_match(seq![a, a], seq![a, b]),
        unmatched(seq![a, a], seq![a, b]) == 1,
{
    lemma_view_eq_refl(a);
    lemma_view_eq_refl(b);
    let l = seq![a, a, b];
    let r = seq![a, b, a];
    let u0 = Seq::new(3, |k: int| false);
    assert(greedy(l, r, 0) == (u0, 0nat));
    lemma_first_match_skip(a, r, u0, 0, 0);
    let u1 = u0.update(0, true);
    assert(greedy(l, r, 1) == (u1, 0nat));
    lemma_first_match_skip(a, r, u1, 0, 2);
    let u2 = u1.update(2, true);
    assert(greedy(l, r, 2) == (u2, 0nat));
    lemma_first_match_skip(b, r, u2, 0, 1);
    assert(greedy(l, r, 3).1 == 0);

    let l2 = seq![a, a];
    let r2 = seq![a, b];
    let v0 = Seq::new(2, |k: int| false);
    assert(greedy(l2, r2, 0) == (v0, 0nat));
    lemma_first_match_skip(a, r2, v0, 0, 0);
    let v1 = v0.update(0, true);
    assert(greedy(l2, r2, 1) == (v1, 0nat));
    assert(first_match(a, r2, v1, 2) == 2);
    assert(first_match(a, r2, v1, 1) == 2);
    assert(first_match(a, r2, v1, 0) == 2);
    assert(greedy(l2, r2, 2).1 == 1);
}

} // verus!
