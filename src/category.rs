//! Channel tiers, derived from the channel's name.

use vstd::prelude::*;
use crate::text::{chars_of, contains, contains_chars, string_of};

verus! {

pub open spec fn ultra_hd_marker() -> Seq<char> {
    seq!['超', '高', '清']
}

pub open spec fn four_k_marker() -> Seq<char> {
    seq!['4', 'K']
}

pub open spec fn hd_marker() -> Seq<char> {
    seq!['高', '清']
}

pub open spec fn ultra_marker() -> Seq<char> {
    seq!['超', '清']
}

pub open spec fn satellite_marker() -> Seq<char> {
    seq!['卫', '视']
}

/// Label of the top tier.
pub open spec fn top_tier() -> Seq<char> {
    seq!['超', '清', '频', '道']
}

/// Label of the middle tier.
pub open spec fn mid_tier() -> Seq<char> {
    seq!['高', '清', '频', '道']
}

/// Label of the base tier.
pub open spec fn base_tier() -> Seq<char> {
    seq!['普', '通', '频', '道']
}

/// The tier of a channel name: the first of the ordered substring tests that holds.
pub open spec fn category_of(name: Seq<char>) -> Seq<char> {
    if contains(name, ultra_hd_marker()) || contains(name, four_k_marker()) {
        top_tier()
    } else if contains(name, hd_marker()) || contains(name, ultra_marker()) || contains(
        name,
        satellite_marker(),
    ) {
        mid_tier()
    } else {
        base_tier()
    }
}

pub(crate) fn category_chars(name: &[char]) -> (r: Vec<char>)
    ensures
        r@ == category_of(name@),
{
    let ultra_hd: Vec<char> = vec!['超', '高', '清'];
    let four_k: Vec<char> = vec!['4', 'K'];
    let hd: Vec<char> = vec!['高', '清'];
    let ultra: Vec<char> = vec!['超', '清'];
    let satellite: Vec<char> = vec!['卫', '视'];
    assert(ultra_hd@ =~= ultra_hd_marker());
    assert(four_k@ =~= four_k_marker());
    assert(hd@ =~= hd_marker());
    assert(ultra@ =~= ultra_marker());
    assert(satellite@ =~= satellite_marker());
    if contains_chars(name, &ultra_hd) || contains_chars(name, &four_k) {
        let r: Vec<char> = vec!['超', '清', '频', '道'];
        assert(r@ =~= top_tier());
        r
    } else if contains_chars(name, &hd) || contains_chars(name, &ultra) || contains_chars(
        name,
        &satellite,
    ) {
        let r: Vec<char> = vec!['高', '清', '频', '道'];
        assert(r@ =~= mid_tier());
        r
    } else {
        let r: Vec<char> = vec!['普', '通', '频', '道'];
        assert(r@ =~= base_tier());
        r
    }
}

/// The tier label of a channel name.
pub fn categorize_channel(channel_name: &str) -> (r: String)
    ensures
        r@ == category_of(channel_name@),
{
    let name = chars_of(channel_name);
    let label = category_chars(name.as_slice());
    string_of(label.as_slice())
}

/// A name with a 4K or ultra-HD marker is top tier; one with a satellite
/// marker and neither of those is middle tier; one with no marker at all is
/// base tier; and the three labels differ, so each name has exactly one.
pub proof fn lemma_tiers(name: Seq<char>)
    ensures
        contains(name, four_k_marker()) ==> category_of(name) == top_tier(),
        contains(name, satellite_marker()) && !contains(name, four_k_marker()) && !contains(
            name,
            ultra_hd_marker(),
        ) ==> category_of(name) == mid_tier(),
        !contains(name, ultra_hd_marker()) && !contains(name, four_k_marker()) && !contains(
            name,
            hd_marker(),
        ) && !contains(name, ultra_marker()) && !contains(name, satellite_marker())
            ==> category_of(name) == base_tier(),
        top_tier() != mid_tier() && mid_tier() != base_tier() && top_tier() != base_tier(),
{
    assert(top_tier()[0] != mid_tier()[0]);
    assert(top_tier()[0] != base_tier()[0]);
    assert(mid_tier()[0] != base_tier()[0]);
}

} // verus!
