use vstd::prelude::*;
use vstd::string::StringSliceAdditionalSpecFns;
use crate::buffer::{Buffer, MAX_SAMPLES};
use crate::error::Error;
use crate::mosaic::mosaic_with_rng;
use crate::pick::pick_with_rng;
use crate::reverb::reverb;
use crate::reverse::reverse;
use crate::rng::{rng_below, rng_coin, rng_range_incl};
use crate::time::Time;
use crate::x::x;

verus! {

/// The pattern at each index of the fixed pool.
pub open spec fn spec_pattern(i: int) -> Seq<char> {
    if i == 0 {
        "a_b_a__ca_b_c___"@
    } else if i == 1 {
        "a_b_a__ca_b_d___"@
    } else if i == 2 {
        "a_a_b__ca_b_d___"@
    } else if i == 3 {
        "aa__b__ca_c_d___"@
    } else if i == 4 {
        "aa__b__aa___c___"@
    } else if i == 5 {
        "aa__b__ad___c___"@
    } else if i == 6 {
        "ababbabb"@
    } else if i == 7 {
        "dabab_dbabc_"@
    } else if i == 8 {
        "cabab_d_"@
    } else if i == 9 {
        "abcabcab"@
    } else if i == 10 {
        "abcabcaa"@
    } else if i == 11 {
        "ab_c_b__"@
    } else if i == 12 {
        "aa_b_cb_"@
    } else if i == 13 {
        "aaaaa_____b_ac__"@
    } else if i == 14 {
        "d_aa_bb_cccc____"@
    } else if i == 15 {
        "aabac_a_a_abad__"@
    } else if i == 16 {
        "aa_ac_a_a_abac__"@
    } else if i == 17 {
        "abbbcb_aabbbcac_"@
    } else if i == 18 {
        "abbbcbaabbbcac__"@
    } else if i == 19 {
        "a_b_bbb_c_d_d_d_"@
    } else if i == 20 {
        "a_b_d_b_c_b_bdb_"@
    } else if i == 21 {
        "a_b_a_b_c_b_bcbb"@
    } else if i == 22 {
        "a_b_a_b_a_b_b_a_b_b_a_b_a_a_a_a_"@
    } else if i == 23 {
        "a_a_b_a_a_b_a_b_"@
    } else if i == 24 {
        "a_a_b_a_a_b_a_c_"@
    } else if i == 25 {
        "a_a_b_a_a_b_aabc"@
    } else if i == 26 {
        "a_a_b_a_c_b_c_b_"@
    } else if i == 27 {
        "a_a_b_a_c_b_ccba"@
    } else if i == 28 {
        "a__b_a_a_b__"@
    } else if i == 29 {
        "a__b_aca_d__"@
    } else if i == 30 {
        "a_ba_ab_"@
    } else if i == 31 {
        "a_bacab_"@
    } else if i == 32 {
        "adbacabd"@
    } else if i == 33 {
        "adcbcabd"@
    } else if i == 34 {
        "a_b_a_baa_baaaba"@
    } else if i == 35 {
        "aa__b___d_b_c___"@
    } else if i == 36 {
        "abcb"@
    } else if i == 37 {
        "abbbcbbb"@
    } else if i == 38 {
        "a_b_"@
    } else if i == 39 {
        "aaaab__aaaaa__b_"@
    } else if i == 40 {
        "aabaabaaaababbba"@
    } else if i == 41 {
        "aaa_b_aaaa__b___"@
    } else if i == 42 {
        "aaa_b_aaaaa_b___"@
    } else if i == 43 {
        "aaa_b_aaaaa___b_"@
    } else if i == 44 {
        "aaaabaaaaaaa_aaa"@
    } else if i == 45 {
        "aaaabaaaaaaa_aab"@
    } else if i == 46 {
        "aaaabaaaaaaa_aca"@
    } else if i == 47 {
        "a_a_b_abcbaab_a_"@
    } else if i == 48 {
        "a_a_b_abcbaab_c_"@
    } else if i == 49 {
        "a_c_b_cbcbacb_c_"@
    } else if i == 50 {
        "a___b__bcbaab___"@
    } else if i == 51 {
        "aaaab_a_aaab_ab_"@
    } else if i == 52 {
        "aabcabac_abcabac"@
    } else if i == 53 {
        "aabcabac_abcab_d"@
    } else if i == 54 {
        "aaaa_aaaa_bababa"@
    } else if i == 55 {
        "a_a_b_a___a_b___"@
    } else if i == 56 {
        "aa_baa_baa_baa_a"@
    } else if i == 57 {
        "ab_ab_ab_ab_a_b_"@
    } else if i == 58 {
        "ab_ab_ab_ab_baaa"@
    } else if i == 59 {
        "a___b__a_aa_b___"@
    } else if i == 60 {
        "aaaabaababaabbbb"@
    } else if i == 61 {
        "baaabaaabaab_b_b"@
    } else if i == 62 {
        "a_aba_a_aba_b_b_"@
    } else if i == 63 {
        "aa_ab_aa_a_abab_"@
    } else if i == 64 {
        "abbaaaabbaaaa_b_"@
    } else if i == 65 {
        "a__ab_a___abab__"@
    } else if i == 66 {
        "a_a___b__a_ba__b"@
    } else if i == 67 {
        "babab_babab_bab_"@
    } else if i == 68 {
        "babab_bab_babab_"@
    } else if i == 69 {
        "abbaaabb"@
    } else if i == 70 {
        "a_ba_bb_"@
    } else if i == 71 {
        "a_ba_bbaabbabbbb"@
    } else if i == 72 {
        "a_ba_ab_"@
    } else if i == 73 {
        "aa_bb_aa_bbbbbb_"@
    } else if i == 74 {
        "ab_baab_"@
    } else if i == 75 {
        "a_b_b_ab_bb__b__"@
    } else if i == 76 {
        "aa_a_aa_"@
    } else if i == 77 {
        "a_baca__"@
    } else if i == 78 {
        "a_b_ab__c_d_a_d_"@
    } else if i == 79 {
        "a_a_b___aba_d_b_"@
    } else if i == 80 {
        "aaa_b_abcbcab___"@
    } else if i == 81 {
        "a___cba_a_a_a___"@
    } else if i == 82 {
        "a_a_bbb_cbd_d_d_"@
    } else if i == 83 {
        "aab_b__ca_b_c_b_"@
    } else if i == 84 {
        "aab_a_ab_bbaa_a_"@
    } else if i == 85 {
        "aabbb__c__b_b_b_"@
    } else {
        "aababa_a__bababa"@
    }
}

/// The fixed pattern at one index of the pool.
pub fn pattern_at(i: usize) -> (r: &'static str)
    requires
        i < 87,
    ensures
        r@ == spec_pattern(i as int),
{
    if i == 0 {
        "a_b_a__ca_b_c___"
    } else if i == 1 {
        "a_b_a__ca_b_d___"
    } else if i == 2 {
        "a_a_b__ca_b_d___"
    } else if i == 3 {
        "aa__b__ca_c_d___"
    } else if i == 4 {
        "aa__b__aa___c___"
    } else if i == 5 {
        "aa__b__ad___c___"
    } else if i == 6 {
        "ababbabb"
    } else if i == 7 {
        "dabab_dbabc_"
    } else if i == 8 {
        "cabab_d_"
    } else if i == 9 {
        "abcabcab"
    } else if i == 10 {
        "abcabcaa"
    } else if i == 11 {
        "ab_c_b__"
    } else if i == 12 {
        "aa_b_cb_"
    } else if i == 13 {
        "aaaaa_____b_ac__"
    } else if i == 14 {
        "d_aa_bb_cccc____"
    } else if i == 15 {
        "aabac_a_a_abad__"
    } else if i == 16 {
        "aa_ac_a_a_abac__"
    } else if i == 17 {
        "abbbcb_aabbbcac_"
    } else if i == 18 {
        "abbbcbaabbbcac__"
    } else if i == 19 {
        "a_b_bbb_c_d_d_d_"
    } else if i == 20 {
        "a_b_d_b_c_b_bdb_"
    } else if i == 21 {
        "a_b_a_b_c_b_bcbb"
    } else if i == 22 {
        "a_b_a_b_a_b_b_a_b_b_a_b_a_a_a_a_"
    } else if i == 23 {
        "a_a_b_a_a_b_a_b_"
    } else if i == 24 {
        "a_a_b_a_a_b_a_c_"
    } else if i == 25 {
        "a_a_b_a_a_b_aabc"
    } else if i == 26 {
        "a_a_b_a_c_b_c_b_"
    } else if i == 27 {
        "a_a_b_a_c_b_ccba"
    } else if i == 28 {
        "a__b_a_a_b__"
    } else if i == 29 {
        "a__b_aca_d__"
    } else if i == 30 {
        "a_ba_ab_"
    } else if i == 31 {
        "a_bacab_"
    } else if i == 32 {
        "adbacabd"
    } else if i == 33 {
        "adcbcabd"
    } else if i == 34 {
        "a_b_a_baa_baaaba"
    } else if i == 35 {
        "aa__b___d_b_c___"
    } else if i == 36 {
        "abcb"
    } else if i == 37 {
        "abbbcbbb"
    } else if i == 38 {
        "a_b_"
    } else if i == 39 {
        "aaaab__aaaaa__b_"
    } else if i == 40 {
        "aabaabaaaababbba"
    } else if i == 41 {
        "aaa_b_aaaa__b___"
    } else if i == 42 {
        "aaa_b_aaaaa_b___"
    } else if i == 43 {
        "aaa_b_aaaaa___b_"
    } else if i == 44 {
        "aaaabaaaaaaa_aaa"
    } else if i == 45 {
        "aaaabaaaaaaa_aab"
    } else if i == 46 {
        "aaaabaaaaaaa_aca"
    } else if i == 47 {
        "a_a_b_abcbaab_a_"
    } else if i == 48 {
        "a_a_b_abcbaab_c_"
    } else if i == 49 {
        "a_c_b_cbcbacb_c_"
    } else if i == 50 {
        "a___b__bcbaab___"
    } else if i == 51 {
        "aaaab_a_aaab_ab_"
    } else if i == 52 {
        "aabcabac_abcabac"
    } else if i == 53 {
        "aabcabac_abcab_d"
    } else if i == 54 {
        "aaaa_aaaa_bababa"
    } else if i == 55 {
        "a_a_b_a___a_b___"
    } else if i == 56 {
        "aa_baa_baa_baa_a"
    } else if i == 57 {
        "ab_ab_ab_ab_a_b_"
    } else if i == 58 {
        "ab_ab_ab_ab_baaa"
    } else if i == 59 {
        "a___b__a_aa_b___"
    } else if i == 60 {
        "aaaabaababaabbbb"
    } else if i == 61 {
        "baaabaaabaab_b_b"
    } else if i == 62 {
        "a_aba_a_aba_b_b_"
    } else if i == 63 {
        "aa_ab_aa_a_abab_"
    } else if i == 64 {
        "abbaaaabbaaaa_b_"
    } else if i == 65 {
        "a__ab_a___abab__"
    } else if i == 66 {
        "a_a___b__a_ba__b"
    } else if i == 67 {
        "babab_babab_bab_"
    } else if i == 68 {
        "babab_bab_babab_"
    } else if i == 69 {
        "abbaaabb"
    } else if i == 70 {
        "a_ba_bb_"
    } else if i == 71 {
        "a_ba_bbaabbabbbb"
    } else if i == 72 {
        "a_ba_ab_"
    } else if i == 73 {
        "aa_bb_aa_bbbbbb_"
    } else if i == 74 {
        "ab_baab_"
    } else if i == 75 {
        "a_b_b_ab_bb__b__"
    } else if i == 76 {
        "aa_a_aa_"
    } else if i == 77 {
        "a_baca__"
    } else if i == 78 {
        "a_b_ab__c_d_a_d_"
    } else if i == 79 {
        "a_a_b___aba_d_b_"
    } else if i == 80 {
        "aaa_b_abcbcab___"
    } else if i == 81 {
        "a___cba_a_a_a___"
    } else if i == 82 {
        "a_a_bbb_cbd_d_d_"
    } else if i == 83 {
        "aab_b__ca_b_c_b_"
    } else if i == 84 {
        "aab_a_ab_bbaa_a_"
    } else if i == 85 {
        "aabbb__c__b_b_b_"
    } else {
        "aababa_a__bababa"
    }
}

/// The fixed pattern pool the mosaic blender draws from: the same
/// eighty-seven patterns on every call.
pub fn get_patterns() -> (r: Vec<String>)
    ensures
        r@.len() == 87,
        forall|i: int| 0 <= i < 87 ==> (#[trigger] r@[i])@ == spec_pattern(i),
{
    let mut v: Vec<String> = Vec::new();
    let mut i: usize = 0;
    while i < 87
        invariant
            i <= 87,
            v@.len() == i,
            forall|j: int| 0 <= j < i ==> (#[trigger] v@[j])@ == spec_pattern(j),
        decreases 87 - i,
    {
        v.push(pattern_at(i).to_owned());
        i += 1;
    }
    v
}

/// Every pattern of the pool is short, non-empty and plain ASCII.
#[verifier::rlimit(100)]
pub proof fn lemma_pattern_facts(i: int)
    requires
        0 <= i < 87,
    ensures
        1 <= spec_pattern(i).len() <= 32,
        vstd::utf8::is_ascii_chars(spec_pattern(i)),
{
    reveal_strlit("a_b_a__ca_b_c___");
    reveal_strlit("a_b_a__ca_b_d___");
    reveal_strlit("a_a_b__ca_b_d___");
    reveal_strlit("aa__b__ca_c_d___");
    reveal_strlit("aa__b__aa___c___");
    reveal_strlit("aa__b__ad___c___");
    reveal_strlit("ababbabb");
    reveal_strlit("dabab_dbabc_");
    reveal_strlit("cabab_d_");
    reveal_strlit("abcabcab");
    reveal_strlit("abcabcaa");
    reveal_strlit("ab_c_b__");
    reveal_strlit("aa_b_cb_");
    reveal_strlit("aaaaa_____b_ac__");
    reveal_strlit("d_aa_bb_cccc____");
    reveal_strlit("aabac_a_a_abad__");
    reveal_strlit("aa_ac_a_a_abac__");
    reveal_strlit("abbbcb_aabbbcac_");
    reveal_strlit("abbbcbaabbbcac__");
    reveal_strlit("a_b_bbb_c_d_d_d_");
    reveal_strlit("a_b_d_b_c_b_bdb_");
    reveal_strlit("a_b_a_b_c_b_bcbb");
    reveal_strlit("a_b_a_b_a_b_b_a_b_b_a_b_a_a_a_a_");
    reveal_strlit("a_a_b_a_a_b_a_b_");
    reveal_strlit("a_a_b_a_a_b_a_c_");
    reveal_strlit("a_a_b_a_a_b_aabc");
    reveal_strlit("a_a_b_a_c_b_c_b_");
    reveal_strlit("a_a_b_a_c_b_ccba");
    reveal_strlit("a__b_a_a_b__");
    reveal_strlit("a__b_aca_d__");
    reveal_strlit("a_ba_ab_");
    reveal_strlit("a_bacab_");
    reveal_strlit("adbacabd");
    reveal_strlit("adcbcabd");
    reveal_strlit("a_b_a_baa_baaaba");
    reveal_strlit("aa__b___d_b_c___");
    reveal_strlit("abcb");
    reveal_strlit("abbbcbbb");
    reveal_strlit("a_b_");
    reveal_strlit("aaaab__aaaaa__b_");
    reveal_strlit("aabaabaaaababbba");
    reveal_strlit("aaa_b_aaaa__b___");
    reveal_strlit("aaa_b_aaaaa_b___");
    reveal_strlit("aaa_b_aaaaa___b_");
    reveal_strlit("aaaabaaaaaaa_aaa");
    reveal_strlit("aaaabaaaaaaa_aab");
    reveal_strlit("aaaabaaaaaaa_aca");
    reveal_strlit("a_a_b_abcbaab_a_");
    reveal_strlit("a_a_b_abcbaab_c_");
    reveal_strlit("a_c_b_cbcbacb_c_");
    reveal_strlit("a___b__bcbaab___");
    reveal_strlit("aaaab_a_aaab_ab_");
    reveal_strlit("aabcabac_abcabac");
    reveal_strlit("aabcabac_abcab_d");
    reveal_strlit("aaaa_aaaa_bababa");
    reveal_strlit("a_a_b_a___a_b___");
    reveal_strlit("aa_baa_baa_baa_a");
    reveal_strlit("ab_ab_ab_ab_a_b_");
    reveal_strlit("ab_ab_ab_ab_baaa");
    reveal_strlit("a___b__a_aa_b___");
    reveal_strlit("aaaabaababaabbbb");
    reveal_strlit("baaabaaabaab_b_b");
    reveal_strlit("a_aba_a_aba_b_b_");
    reveal_strlit("aa_ab_aa_a_abab_");
    reveal_strlit("abbaaaabbaaaa_b_");
    reveal_strlit("a__ab_a___abab__");
    reveal_strlit("a_a___b__a_ba__b");
    reveal_strlit("babab_babab_bab_");
    reveal_strlit("babab_bab_babab_");
    reveal_strlit("abbaaabb");
    reveal_strlit("a_ba_bb_");
    reveal_strlit("a_ba_bbaabbabbbb");
    reveal_strlit("a_ba_ab_");
    reveal_strlit("aa_bb_aa_bbbbbb_");
    reveal_strlit("ab_baab_");
    reveal_strlit("a_b_b_ab_bb__b__");
    reveal_strlit("aa_a_aa_");
    reveal_strlit("a_baca__");
    reveal_strlit("a_b_ab__c_d_a_d_");
    reveal_strlit("a_a_b___aba_d_b_");
    reveal_strlit("aaa_b_abcbcab___");
    reveal_strlit("a___cba_a_a_a___");
    reveal_strlit("a_a_bbb_cbd_d_d_");
    reveal_strlit("aab_b__ca_b_c_b_");
    reveal_strlit("aab_a_ab_bbaa_a_");
    reveal_strlit("aabbb__c__b_b_b_");
    reveal_strlit("aababa_a__bababa");
}

/// Draws one pattern from the pool.
pub fn get_random_pattern(rng: &mut rand::rngs::StdRng) -> (r: String)
    ensures
        exists|i: int| 0 <= i < 87 && r@ == spec_pattern(i),
{
    let pats = get_patterns();
    let ix = rng_below(rng, 87);
    let p = pats[ix as usize].clone();
    proof {
        assert(p@ == spec_pattern(ix as int));
    }
    p
}

/// The success hypothesis: two inputs of one format, long enough that a
/// sixteenth of each covers the longest drawn segment, of bounded rate.
pub open spec fn spec_bmosaic_ready(wavs: Seq<Buffer>) -> bool {
    &&& wavs.len() >= 2
    &&& wavs[0].fmt == wavs[1].fmt
    &&& wavs[0].spec_frames() >= 8
    &&& wavs[1].spec_frames() >= 8
    &&& wavs[0].spec_frames() >= 6 * (wavs[0].fmt.sample_rate as int)
    &&& wavs[1].spec_frames() >= 6 * (wavs[0].fmt.sample_rate as int)
    &&& 128 * (wavs[0].fmt.sample_rate as int) * (wavs[0].fmt.channels as int)
        <= MAX_SAMPLES
}

/// The arithmetic behind the hypothesis: the picks are non-empty, the
/// drawn segment fits inside their concatenation, and everything stays
/// far below the size cap.
proof fn lemma_bmosaic_sizes(a0: Buffer, a1: Buffer, ms: int)
    requires
        a0.wf(),
        a1.wf(),
        a0.fmt == a1.fmt,
        a0.spec_frames() >= 8,
        a1.spec_frames() >= 8,
        a0.spec_frames() >= 6 * (a0.fmt.sample_rate as int),
        a1.spec_frames() >= 6 * (a0.fmt.sample_rate as int),
        128 * (a0.fmt.sample_rate as int) * (a0.fmt.channels as int) <= MAX_SAMPLES,
        100 <= ms <= 340,
    ensures
        1 <= crate::time::round_div(a0.spec_frames() * 1, 16),
        1 <= crate::time::round_div(a1.spec_frames() * 1, 16),
        8 * crate::time::round_div(a0.spec_frames() * 1, 16) <= a0.spec_frames(),
        8 * crate::time::round_div(a1.spec_frames() * 1, 16) <= a1.spec_frames(),
        crate::time::round_div(ms * (a0.fmt.sample_rate as int), 1000)
            <= crate::time::round_div(a0.spec_frames() * 1, 16),
        0 <= crate::time::round_div(ms * (a0.fmt.sample_rate as int), 1000) <= (
        a0.fmt.sample_rate as int),
        128 * (crate::time::round_div(ms * (a0.fmt.sample_rate as int), 1000) * (
        a0.fmt.channels as int)) <= MAX_SAMPLES,
{
    let f0 = a0.spec_frames();
    let f1 = a1.spec_frames();
    let rt = a0.fmt.sample_rate as int;
    let c = a0.fmt.channels as int;
    assert(f0 * 1 == f0 && f1 * 1 == f1) by (nonlinear_arith);
    let n0 = (2 * f0 + 16) / 32;
    let n1 = (2 * f1 + 16) / 32;
    vstd::arithmetic::div_mod::lemma_div_is_ordered(32, 2 * f0 + 16, 32);
    vstd::arithmetic::div_mod::lemma_div_is_ordered(32, 2 * f1 + 16, 32);
    assert(32int / 32 == 1);
    vstd::arithmetic::div_mod::lemma_fundamental_div_mod(2 * f0 + 16, 32);
    vstd::arithmetic::div_mod::lemma_fundamental_div_mod(2 * f1 + 16, 32);
    vstd::arithmetic::div_mod::lemma_mod_bound(2 * f0 + 16, 32);
    vstd::arithmetic::div_mod::lemma_mod_bound(2 * f1 + 16, 32);
    assert(8 * n0 <= f0 && 8 * n1 <= f1) by (nonlinear_arith)
        requires
            2 * f0 + 16 == 32 * n0 + (2 * f0 + 16) % 32,
            2 * f1 + 16 == 32 * n1 + (2 * f1 + 16) % 32,
            0 <= (2 * f0 + 16) % 32 < 32,
            0 <= (2 * f1 + 16) % 32 < 32,
            f0 >= 8,
            f1 >= 8,
    ;
    // the drawn segment, in frames, never exceeds a sixteenth of the input
    let sg = (2 * (ms * rt) + 1000) / 2000;
    assert(2 * (ms * rt) + 1000 <= 680 * rt + 1000 && 0 <= 2 * (ms * rt) + 1000)
        by (nonlinear_arith)
        requires
            100 <= ms <= 340,
            rt >= 1,
    ;
    vstd::arithmetic::div_mod::lemma_div_is_ordered(2 * (ms * rt) + 1000, 2000 * rt, 2000);
    vstd::arithmetic::div_mod::lemma_div_multiples_vanish(rt, 2000);
    assert(680 * rt + 1000 <= 2000 * rt && 2000 * rt == rt * 2000) by (nonlinear_arith)
        requires
            rt >= 1,
    ;
    vstd::arithmetic::div_mod::lemma_div_pos_is_pos(2 * (ms * rt) + 1000, 2000);
    vstd::arithmetic::div_mod::lemma_fundamental_div_mod(2 * (ms * rt) + 1000, 2000);
    vstd::arithmetic::div_mod::lemma_mod_bound(2 * (ms * rt) + 1000, 2000);
    assert(32 * sg <= 12 * rt + 16) by (nonlinear_arith)
        requires
            2 * (ms * rt) + 1000 == 2000 * sg + (2 * (ms * rt) + 1000) % 2000,
            0 <= (2 * (ms * rt) + 1000) % 2000 < 2000,
            ms <= 340,
            rt >= 1,
            sg >= 0,
    ;
    vstd::arithmetic::div_mod::lemma_div_multiples_vanish(sg, 32);
    assert(32 * sg <= 2 * f0 + 16) by (nonlinear_arith)
        requires
            32 * sg <= 12 * rt + 16,
            f0 >= 6 * rt,
    ;
    vstd::arithmetic::div_mod::lemma_div_is_ordered(32 * sg, 2 * f0 + 16, 32);
    assert(128 * (sg * c) <= 128 * (rt * c) && 128 * (rt * c) == 128 * rt * c)
        by (nonlinear_arith)
        requires
            0 <= sg <= rt,
            c >= 1,
    ;
}

/// The mosaic blender: picks a sixteenth of each of two inputs, possibly
/// reverses them, composes a drawn pattern over their concatenation with a
/// drawn segment length, adds an echo, and repeats the result four times.
#[verifier::rlimit(100)]
pub fn mosaic(wavs: &Vec<Buffer>, rng: &mut rand::rngs::StdRng) -> (r: Result<Buffer, Error>)
    requires
        forall|k: int| 0 <= k < wavs@.len() ==> (#[trigger] wavs@[k]).wf(),
    ensures
        match r {
            Ok(out) => {
                &&& out.wf()
                &&& wavs@.len() >= 2
                &&& out.fmt == wavs@[0].fmt
                &&& wavs@[0].spec_frames() >= 1
                &&& wavs@[1].spec_frames() >= 1
            },
            Err(e) => {
                &&& e != Error::UnknownBlender && e != Error::UnknownEffect
                &&& (e == Error::EmptyInput <==> wavs@.len() < 2)
                &&& !spec_bmosaic_ready(wavs@)
            },
        },
{
    if wavs.len() < 2 {
        return Err(Error::EmptyInput);
    }
    let sixteenth = Time::fract(1, 16);
    let mut w1 = match pick_with_rng(&wavs[0], rng, &sixteenth) {
        Ok(v) => v,
        Err(e) => {
            proof {
                if spec_bmosaic_ready(wavs@) {
                    lemma_bmosaic_sizes(wavs@[0], wavs@[1], 100);
                }
            }
            return Err(e);
        },
    };
    let mut w2 = match pick_with_rng(&wavs[1], rng, &sixteenth) {
        Ok(v) => v,
        Err(e) => {
            proof {
                if spec_bmosaic_ready(wavs@) {
                    lemma_bmosaic_sizes(wavs@[0], wavs@[1], 100);
                }
            }
            return Err(e);
        },
    };
    if rng_coin(rng, 1, 2) {
        w1 = reverse(&w1);
    }
    if rng_coin(rng, 1, 2) {
        w2 = reverse(&w2);
    }
    proof {
        crate::xfade::lemma_frames_samples(w1);
        crate::xfade::lemma_frames_samples(w2);
    }
    let pat = get_random_pattern(rng);
    // segment length between 0.1 and 0.34 seconds, in milliseconds
    let seg_ms = rng_range_incl(rng, 100, 340);
    let seg = Time::abs(seg_ms, 1000);
    let joined = match crate::add::add(&w1, &w2) {
        Ok(v) => v,
        Err(e) => {
            proof {
                if spec_bmosaic_ready(wavs@) {
                    lemma_bmosaic_sizes(wavs@[0], wavs@[1], seg_ms as int);
                    lemma_halves_small(wavs@[0], wavs@[1], w1, w2);
                }
            }
            return Err(e);
        },
    };
    let ps = pat.as_str();
    proof {
        if spec_bmosaic_ready(wavs@) {
            lemma_bmosaic_sizes(wavs@[0], wavs@[1], seg_ms as int);
            lemma_halves_small(wavs@[0], wavs@[1], w1, w2);
            crate::laws::lemma_add_duration(w1, w2, joined);
            let pi = choose|i: int| 0 <= i < 87 && pat@ == spec_pattern(i);
            lemma_pattern_facts(pi);
            assert(vstd::string::is_ascii(ps));
            vstd::string::is_ascii_spec_bytes(ps);
            assert(ps.spec_bytes().len() <= 32);
            let sgf = seg.spec_frames(joined.spec_frames(), joined.fmt.sample_rate as int);
            let c = joined.fmt.channels as int;
            assert(ps.spec_bytes().len() * (sgf * c) <= 32 * (sgf * c)) by (nonlinear_arith)
                requires
                    0 <= ps.spec_bytes().len() <= 32,
                    sgf * c >= 0,
            ;
            assert(32 * (sgf * c) <= 128 * (sgf * c)) by (nonlinear_arith)
                requires
                    sgf * c >= 0,
            ;
        }
    }
    let o = match mosaic_with_rng(&joined, rng, ps, &seg) {
        Ok(v) => v,
        Err(e) => {
            return Err(e);
        },
    };
    let delay_ms = rng_range_incl(rng, 30, 180);
    // decay between 0.3 and 0.8 of full scale, fixed point
    let decay = rng_range_incl(rng, 19661, 52429);
    let echoed = match reverb(&o, delay_ms as u32, decay) {
        Ok(v) => v,
        Err(e) => {
            return Err(e);
        },
    };
    match x(&echoed, 4) {
        Ok(v) => Ok(v),
        Err(e) => {
            proof {
                if spec_bmosaic_ready(wavs@) {
                    let sgf = seg.spec_frames(
                        joined.spec_frames(),
                        joined.fmt.sample_rate as int,
                    );
                    let c = joined.fmt.channels as int;
                    assert(4 * (ps.spec_bytes().len() * (sgf * c)) <= 4 * (32 * (sgf * c)))
                        by (nonlinear_arith)
                        requires
                            0 <= ps.spec_bytes().len() <= 32,
                            sgf * c >= 0,
                    ;
                    assert(4 * (32 * (sgf * c)) == 128 * (sgf * c)) by (nonlinear_arith);
                }
            }
            Err(e)
        },
    }
}

/// A sixteenth pick of each input stays within an eighth of its source.
proof fn lemma_halves_small(a0: Buffer, a1: Buffer, w1: Buffer, w2: Buffer)
    requires
        a0.wf(),
        a1.wf(),
        w1.wf(),
        w2.wf(),
        w1.fmt == a0.fmt,
        w2.fmt == a1.fmt,
        8 * w1.spec_frames() <= a0.spec_frames(),
        8 * w2.spec_frames() <= a1.spec_frames(),
    ensures
        w1.samples@.len() + w2.samples@.len() <= MAX_SAMPLES,
{
    crate::xfade::lemma_frames_samples(a0);
    crate::xfade::lemma_frames_samples(a1);
    crate::xfade::lemma_frames_samples(w1);
    crate::xfade::lemma_frames_samples(w2);
    assert(8 * w1.samples@.len() <= a0.samples@.len() && 8 * w2.samples@.len()
        <= a1.samples@.len()) by (nonlinear_arith)
        requires
            w1.samples@.len() == w1.spec_frames() * (a0.fmt.channels as int),
            a0.samples@.len() == a0.spec_frames() * (a0.fmt.channels as int),
            w2.samples@.len() == w2.spec_frames() * (a1.fmt.channels as int),
            a1.samples@.len() == a1.spec_frames() * (a1.fmt.channels as int),
            8 * w1.spec_frames() <= a0.spec_frames(),
            8 * w2.spec_frames() <= a1.spec_frames(),
            a0.fmt.channels >= 1,
            a1.fmt.channels >= 1,
            w1.spec_frames() >= 0,
            w2.spec_frames() >= 0,
    ;
}

} // verus!
