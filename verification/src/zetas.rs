//! The table of roots of unity that the transform uses, and what holds of
//! its entries.
use vstd::prelude::*;

verus! {

/// Powers of the primitive 256th root of unity 17 modulo 3329, in
/// bit-reversed order: entry `k` is 17 raised to the seven-bit reversal of
/// `k`.
pub const ZETAS: [i16; 128] = [
    1, 1729, 2580, 3289, 2642, 630, 1897, 848, 1062, 1919, 193, 797, 2786, 3260, 569, 1746,
    296, 2447, 1339, 1476, 3046, 56, 2240, 1333, 1426, 2094, 535, 2882, 2393, 2879, 1974, 821,
    289, 331, 3253, 1756, 1197, 2304, 2277, 2055, 650, 1977, 2513, 632, 2865, 33, 1320, 1915,
    2319, 1435, 807, 452, 1438, 2868, 1534, 2402, 2647, 2617, 1481, 648, 2474, 3110, 1227, 910,
    17, 2761, 583, 2649, 1637, 723, 2288, 1100, 1409, 2662, 3281, 233, 756, 2156, 3015, 3050,
    1703, 1651, 2789, 1789, 1847, 952, 1461, 2687, 939, 2308, 2437, 2388, 733, 2337, 268, 641,
    1584, 2298, 2037, 3220, 375, 2549, 2090, 1645, 1063, 319, 2773, 757, 2099, 561, 2466, 2594,
    2804, 1092, 403, 1026, 1143, 2150, 2775, 886, 1722, 1212, 1874, 1029, 2110, 2935, 885, 2154,
];

/// Entry `k` of the table of roots.
pub open spec fn zeta(k: int) -> int {
    ZETAS@[k] as int
}

/// The root that the inverse network pairs with root number `k`: within
/// each layer the roots are consumed in reverse order.
pub open spec fn mirror(k: int) -> int {
    if k < 2 {
        2 - k
    } else if k < 4 {
        5 - k
    } else if k < 8 {
        11 - k
    } else if k < 16 {
        23 - k
    } else if k < 32 {
        47 - k
    } else if k < 64 {
        95 - k
    } else {
        191 - k
    }
}

/// Each root and its mirror multiply to -1 modulo 3329, checked entry by
/// entry against the table.
pub proof fn lemma_zeta_mirror(k: int)
    requires
        1 <= k < 128,
    ensures
        (zeta(k) * zeta(mirror(k))) % 3329 == 3328,
{
    if k == 1 {
        assert(zeta(1) == 1729 && zeta(1) == 1729 && (1729int * 1729) % 3329 == 3328);
    } else if k == 2 {
        assert(zeta(2) == 2580 && zeta(3) == 3289 && (2580int * 3289) % 3329 == 3328);
    } else if k == 3 {
        assert(zeta(3) == 3289 && zeta(2) == 2580 && (3289int * 2580) % 3329 == 3328);
    } else if k == 4 {
        assert(zeta(4) == 2642 && zeta(7) == 848 && (2642int * 848) % 3329 == 3328);
    } else if k == 5 {
        assert(zeta(5) == 630 && zeta(6) == 1897 && (630int * 1897) % 3329 == 3328);
    } else if k == 6 {
        assert(zeta(6) == 1897 && zeta(5) == 630 && (1897int * 630) % 3329 == 3328);
    } else if k == 7 {
        assert(zeta(7) == 848 && zeta(4) == 2642 && (848int * 2642) % 3329 == 3328);
    } else if k == 8 {
        assert(zeta(8) == 1062 && zeta(15) == 1746 && (1062int * 1746) % 3329 == 3328);
    } else if k == 9 {
        assert(zeta(9) == 1919 && zeta(14) == 569 && (1919int * 569) % 3329 == 3328);
    } else if k == 10 {
        assert(zeta(10) == 193 && zeta(13) == 3260 && (193int * 3260) % 3329 == 3328);
    } else if k == 11 {
        assert(zeta(11) == 797 && zeta(12) == 2786 && (797int * 2786) % 3329 == 3328);
    } else if k == 12 {
        assert(zeta(12) == 2786 && zeta(11) == 797 && (2786int * 797) % 3329 == 3328);
    } else if k == 13 {
        assert(zeta(13) == 3260 && zeta(10) == 193 && (3260int * 193) % 3329 == 3328);
    } else if k == 14 {
        assert(zeta(14) == 569 && zeta(9) == 1919 && (569int * 1919) % 3329 == 3328);
    } else if k == 15 {
        assert(zeta(15) == 1746 && zeta(8) == 1062 && (1746int * 1062) % 3329 == 3328);
    } else if k == 16 {
        assert(zeta(16) == 296 && zeta(31) == 821 && (296int * 821) % 3329 == 3328);
    } else if k == 17 {
        assert(zeta(17) == 2447 && zeta(30) == 1974 && (2447int * 1974) % 3329 == 3328);
    } else if k == 18 {
        assert(zeta(18) == 1339 && zeta(29) == 2879 && (1339int * 2879) % 3329 == 3328);
    } else if k == 19 {
        assert(zeta(19) == 1476 && zeta(28) == 2393 && (1476int * 2393) % 3329 == 3328);
    } else if k == 20 {
        assert(zeta(20) == 3046 && zeta(27) == 2882 && (3046int * 2882) % 3329 == 3328);
    } else if k == 21 {
        assert(zeta(21) == 56 && zeta(26) == 535 && (56int * 535) % 3329 == 3328);
    } else if k == 22 {
        assert(zeta(22) == 2240 && zeta(25) == 2094 && (2240int * 2094) % 3329 == 3328);
    } else if k == 23 {
        assert(zeta(23) == 1333 && zeta(24) == 1426 && (1333int * 1426) % 3329 == 3328);
    } else if k == 24 {
        assert(zeta(24) == 1426 && zeta(23) == 1333 && (1426int * 1333) % 3329 == 3328);
    } else if k == 25 {
        assert(zeta(25) == 2094 && zeta(22) == 2240 && (2094int * 2240) % 3329 == 3328);
    } else if k == 26 {
        assert(zeta(26) == 535 && zeta(21) == 56 && (535int * 56) % 3329 == 3328);
    } else if k == 27 {
        assert(zeta(27) == 2882 && zeta(20) == 3046 && (2882int * 3046) % 3329 == 3328);
    } else if k == 28 {
        assert(zeta(28) == 2393 && zeta(19) == 1476 && (2393int * 1476) % 3329 == 3328);
    } else if k == 29 {
        assert(zeta(29) == 2879 && zeta(18) == 1339 && (2879int * 1339) % 3329 == 3328);
    } else if k == 30 {
        assert(zeta(30) == 1974 && zeta(17) == 2447 && (1974int * 2447) % 3329 == 3328);
    } else if k == 31 {
        assert(zeta(31) == 821 && zeta(16) == 296 && (821int * 296) % 3329 == 3328);
    } else if k == 32 {
        assert(zeta(32) == 289 && zeta(63) == 910 && (289int * 910) % 3329 == 3328);
    } else if k == 33 {
        assert(zeta(33) == 331 && zeta(62) == 1227 && (331int * 1227) % 3329 == 3328);
    } else if k == 34 {
        assert(zeta(34) == 3253 && zeta(61) == 3110 && (3253int * 3110) % 3329 == 3328);
    } else if k == 35 {
        assert(zeta(35) == 1756 && zeta(60) == 2474 && (1756int * 2474) % 3329 == 3328);
    } else if k == 36 {
        assert(zeta(36) == 1197 && zeta(59) == 648 && (1197int * 648) % 3329 == 3328);
    } else if k == 37 {
        assert(zeta(37) == 2304 && zeta(58) == 1481 && (2304int * 1481) % 3329 == 3328);
    } else if k == 38 {
        assert(zeta(38) == 2277 && zeta(57) == 2617 && (2277int * 2617) % 3329 == 3328);
    } else if k == 39 {
        assert(zeta(39) == 2055 && zeta(56) == 2647 && (2055int * 2647) % 3329 == 3328);
    } else if k == 40 {
        assert(zeta(40) == 650 && zeta(55) == 2402 && (650int * 2402) % 3329 == 3328);
    } else if k == 41 {
        assert(zeta(41) == 1977 && zeta(54) == 1534 && (1977int * 1534) % 3329 == 3328);
    } else if k == 42 {
        assert(zeta(42) == 2513 && zeta(53) == 2868 && (2513int * 2868) % 3329 == 3328);
    } else if k == 43 {
        assert(zeta(43) == 632 && zeta(52) == 1438 && (632int * 1438) % 3329 == 3328);
    } else if k == 44 {
        assert(zeta(44) == 2865 && zeta(51) == 452 && (2865int * 452) % 3329 == 3328);
    } else if k == 45 {
        assert(zeta(45) == 33 && zeta(50) == 807 && (33int * 807) % 3329 == 3328);
    } else if k == 46 {
        assert(zeta(46) == 1320 && zeta(49) == 1435 && (1320int * 1435) % 3329 == 3328);
    } else if k == 47 {
        assert(zeta(47) == 1915 && zeta(48) == 2319 && (1915int * 2319) % 3329 == 3328);
    } else if k == 48 {
        assert(zeta(48) == 2319 && zeta(47) == 1915 && (2319int * 1915) % 3329 == 3328);
    } else if k == 49 {
        assert(zeta(49) == 1435 && zeta(46) == 1320 && (1435int * 1320) % 3329 == 3328);
    } else if k == 50 {
        assert(zeta(50) == 807 && zeta(45) == 33 && (807int * 33) % 3329 == 3328);
    } else if k == 51 {
        assert(zeta(51) == 452 && zeta(44) == 2865 && (452int * 2865) % 3329 == 3328);
    } else if k == 52 {
        assert(zeta(52) == 1438 && zeta(43) == 632 && (1438int * 632) % 3329 == 3328);
    } else if k == 53 {
        assert(zeta(53) == 2868 && zeta(42) == 2513 && (2868int * 2513) % 3329 == 3328);
    } else if k == 54 {
        assert(zeta(54) == 1534 && zeta(41) == 1977 && (1534int * 1977) % 3329 == 3328);
    } else if k == 55 {
        assert(zeta(55) == 2402 && zeta(40) == 650 && (2402int * 650) % 3329 == 3328);
    } else if k == 56 {
        assert(zeta(56) == 2647 && zeta(39) == 2055 && (2647int * 2055) % 3329 == 3328);
    } else if k == 57 {
        assert(zeta(57) == 2617 && zeta(38) == 2277 && (2617int * 2277) % 3329 == 3328);
    } else if k == 58 {
        assert(zeta(58) == 1481 && zeta(37) == 2304 && (1481int * 2304) % 3329 == 3328);
    } else if k == 59 {
        assert(zeta(59) == 648 && zeta(36) == 1197 && (648int * 1197) % 3329 == 3328);
    } else if k == 60 {
        assert(zeta(60) == 2474 && zeta(35) == 1756 && (2474int * 1756) % 3329 == 3328);
    } else if k == 61 {
        assert(zeta(61) == 3110 && zeta(34) == 3253 && (3110int * 3253) % 3329 == 3328);
    } else if k == 62 {
        assert(zeta(62) == 1227 && zeta(33) == 331 && (1227int * 331) % 3329 == 3328);
    } else if k == 63 {
        assert(zeta(63) == 910 && zeta(32) == 289 && (910int * 289) % 3329 == 3328);
    } else if k == 64 {
        assert(zeta(64) == 17 && zeta(127) == 2154 && (17int * 2154) % 3329 == 3328);
    } else if k == 65 {
        assert(zeta(65) == 2761 && zeta(126) == 885 && (2761int * 885) % 3329 == 3328);
    } else if k == 66 {
        assert(zeta(66) == 583 && zeta(125) == 2935 && (583int * 2935) % 3329 == 3328);
    } else if k == 67 {
        assert(zeta(67) == 2649 && zeta(124) == 2110 && (2649int * 2110) % 3329 == 3328);
    } else if k == 68 {
        assert(zeta(68) == 1637 && zeta(123) == 1029 && (1637int * 1029) % 3329 == 3328);
    } else if k == 69 {
        assert(zeta(69) == 723 && zeta(122) == 1874 && (723int * 1874) % 3329 == 3328);
    } else if k == 70 {
        assert(zeta(70) == 2288 && zeta(121) == 1212 && (2288int * 1212) % 3329 == 3328);
    } else if k == 71 {
        assert(zeta(71) == 1100 && zeta(120) == 1722 && (1100int * 1722) % 3329 == 3328);
    } else if k == 72 {
        assert(zeta(72) == 1409 && zeta(119) == 886 && (1409int * 886) % 3329 == 3328);
    } else if k == 73 {
        assert(zeta(73) == 2662 && zeta(118) == 2775 && (2662int * 2775) % 3329 == 3328);
    } else if k == 74 {
        assert(zeta(74) == 3281 && zeta(117) == 2150 && (3281int * 2150) % 3329 == 3328);
    } else if k == 75 {
        assert(zeta(75) == 233 && zeta(116) == 1143 && (233int * 1143) % 3329 == 3328);
    } else if k == 76 {
        assert(zeta(76) == 756 && zeta(115) == 1026 && (756int * 1026) % 3329 == 3328);
    } else if k == 77 {
        assert(zeta(77) == 2156 && zeta(114) == 403 && (2156int * 403) % 3329 == 3328);
    } else if k == 78 {
        assert(zeta(78) == 3015 && zeta(113) == 1092 && (3015int * 1092) % 3329 == 3328);
    } else if k == 79 {
        assert(zeta(79) == 3050 && zeta(112) == 2804 && (3050int * 2804) % 3329 == 3328);
    } else if k == 80 {
        assert(zeta(80) == 1703 && zeta(111) == 2594 && (1703int * 2594) % 3329 == 3328);
    } else if k == 81 {
        assert(zeta(81) == 1651 && zeta(110) == 2466 && (1651int * 2466) % 3329 == 3328);
    } else if k == 82 {
        assert(zeta(82) == 2789 && zeta(109) == 561 && (2789int * 561) % 3329 == 3328);
    } else if k == 83 {
        assert(zeta(83) == 1789 && zeta(108) == 2099 && (1789int * 2099) % 3329 == 3328);
    } else if k == 84 {
        assert(zeta(84) == 1847 && zeta(107) == 757 && (1847int * 757) % 3329 == 3328);
    } else if k == 85 {
        assert(zeta(85) == 952 && zeta(106) == 2773 && (952int * 2773) % 3329 == 3328);
    } else if k == 86 {
        assert(zeta(86) == 1461 && zeta(105) == 319 && (1461int * 319) % 3329 == 3328);
    } else if k == 87 {
        assert(zeta(87) == 2687 && zeta(104) == 1063 && (2687int * 1063) % 3329 == 3328);
    } else if k == 88 {
        assert(zeta(88) == 939 && zeta(103) == 1645 && (939int * 1645) % 3329 == 3328);
    } else if k == 89 {
        assert(zeta(89) == 2308 && zeta(102) == 2090 && (2308int * 2090) % 3329 == 3328);
    } else if k == 90 {
        assert(zeta(90) == 2437 && zeta(101) == 2549 && (2437int * 2549) % 3329 == 3328);
    } else if k == 91 {
        assert(zeta(91) == 2388 && zeta(100) == 375 && (2388int * 375) % 3329 == 3328);
    } else if k == 92 {
        assert(zeta(92) == 733 && zeta(99) == 3220 && (733int * 3220) % 3329 == 3328);
    } else if k == 93 {
        assert(zeta(93) == 2337 && zeta(98) == 2037 && (2337int * 2037) % 3329 == 3328);
    } else if k == 94 {
        assert(zeta(94) == 268 && zeta(97) == 2298 && (268int * 2298) % 3329 == 3328);
    } else if k == 95 {
        assert(zeta(95) == 641 && zeta(96) == 1584 && (641int * 1584) % 3329 == 3328);
    } else if k == 96 {
        assert(zeta(96) == 1584 && zeta(95) == 641 && (1584int * 641) % 3329 == 3328);
    } else if k == 97 {
        assert(zeta(97) == 2298 && zeta(94) == 268 && (2298int * 268) % 3329 == 3328);
    } else if k == 98 {
        assert(zeta(98) == 2037 && zeta(93) == 2337 && (2037int * 2337) % 3329 == 3328);
    } else if k == 99 {
        assert(zeta(99) == 3220 && zeta(92) == 733 && (3220int * 733) % 3329 == 3328);
    } else if k == 100 {
        assert(zeta(100) == 375 && zeta(91) == 2388 && (375int * 2388) % 3329 == 3328);
    } else if k == 101 {
        assert(zeta(101) == 2549 && zeta(90) == 2437 && (2549int * 2437) % 3329 == 3328);
    } else if k == 102 {
        assert(zeta(102) == 2090 && zeta(89) == 2308 && (2090int * 2308) % 3329 == 3328);
    } else if k == 103 {
        assert(zeta(103) == 1645 && zeta(88) == 939 && (1645int * 939) % 3329 == 3328);
    } else if k == 104 {
        assert(zeta(104) == 1063 && zeta(87) == 2687 && (1063int * 2687) % 3329 == 3328);
    } else if k == 105 {
        assert(zeta(105) == 319 && zeta(86) == 1461 && (319int * 1461) % 3329 == 3328);
    } else if k == 106 {
        assert(zeta(106) == 2773 && zeta(85) == 952 && (2773int * 952) % 3329 == 3328);
    } else if k == 107 {
        assert(zeta(107) == 757 && zeta(84) == 1847 && (757int * 1847) % 3329 == 3328);
    } else if k == 108 {
        assert(zeta(108) == 2099 && zeta(83) == 1789 && (2099int * 1789) % 3329 == 3328);
    } else if k == 109 {
        assert(zeta(109) == 561 && zeta(82) == 2789 && (561int * 2789) % 3329 == 3328);
    } else if k == 110 {
        assert(zeta(110) == 2466 && zeta(81) == 1651 && (2466int * 1651) % 3329 == 3328);
    } else if k == 111 {
        assert(zeta(111) == 2594 && zeta(80) == 1703 && (2594int * 1703) % 3329 == 3328);
    } else if k == 112 {
        assert(zeta(112) == 2804 && zeta(79) == 3050 && (2804int * 3050) % 3329 == 3328);
    } else if k == 113 {
        assert(zeta(113) == 1092 && zeta(78) == 3015 && (1092int * 3015) % 3329 == 3328);
    } else if k == 114 {
        assert(zeta(114) == 403 && zeta(77) == 2156 && (403int * 2156) % 3329 == 3328);
    } else if k == 115 {
        assert(zeta(115) == 1026 && zeta(76) == 756 && (1026int * 756) % 3329 == 3328);
    } else if k == 116 {
        assert(zeta(116) == 1143 && zeta(75) == 233 && (1143int * 233) % 3329 == 3328);
    } else if k == 117 {
        assert(zeta(117) == 2150 && zeta(74) == 3281 && (2150int * 3281) % 3329 == 3328);
    } else if k == 118 {
        assert(zeta(118) == 2775 && zeta(73) == 2662 && (2775int * 2662) % 3329 == 3328);
    } else if k == 119 {
        assert(zeta(119) == 886 && zeta(72) == 1409 && (886int * 1409) % 3329 == 3328);
    } else if k == 120 {
        assert(zeta(120) == 1722 && zeta(71) == 1100 && (1722int * 1100) % 3329 == 3328);
    } else if k == 121 {
        assert(zeta(121) == 1212 && zeta(70) == 2288 && (1212int * 2288) % 3329 == 3328);
    } else if k == 122 {
        assert(zeta(122) == 1874 && zeta(69) == 723 && (1874int * 723) % 3329 == 3328);
    } else if k == 123 {
        assert(zeta(123) == 1029 && zeta(68) == 1637 && (1029int * 1637) % 3329 == 3328);
    } else if k == 124 {
        assert(zeta(124) == 2110 && zeta(67) == 2649 && (2110int * 2649) % 3329 == 3328);
    } else if k == 125 {
        assert(zeta(125) == 2935 && zeta(66) == 583 && (2935int * 583) % 3329 == 3328);
    } else if k == 126 {
        assert(zeta(126) == 885 && zeta(65) == 2761 && (885int * 2761) % 3329 == 3328);
    } else {
        assert(zeta(127) == 2154 && zeta(64) == 17 && (2154int * 17) % 3329 == 3328);
    }
}


/// The roots of one layer are the square roots of the roots of the layer
/// before it and of their negatives: root `2k` squares to root `k` and root
/// `2k + 1` to its negative modulo 3329, checked entry by entry against the
/// table.
pub proof fn lemma_zeta_square(k: int)
    requires
        1 <= k < 64,
    ensures
        (zeta(2 * k) * zeta(2 * k)) % 3329 == zeta(k),
        (zeta(2 * k + 1) * zeta(2 * k + 1)) % 3329 == 3329 - zeta(k),
{
    if k == 1 {
        assert(zeta(1) == 1729 && zeta(2) == 2580 && zeta(3) == 3289);
        assert((2580int * 2580) % 3329 == 1729 && (3289int * 3289) % 3329 == 1600);
    } else if k == 2 {
        assert(zeta(2) == 2580 && zeta(4) == 2642 && zeta(5) == 630);
        assert((2642int * 2642) % 3329 == 2580 && (630int * 630) % 3329 == 749);
    } else if k == 3 {
        assert(zeta(3) == 3289 && zeta(6) == 1897 && zeta(7) == 848);
        assert((1897int * 1897) % 3329 == 3289 && (848int * 848) % 3329 == 40);
    } else if k == 4 {
        assert(zeta(4) == 2642 && zeta(8) == 1062 && zeta(9) == 1919);
        assert((1062int * 1062) % 3329 == 2642 && (1919int * 1919) % 3329 == 687);
    } else if k == 5 {
        assert(zeta(5) == 630 && zeta(10) == 193 && zeta(11) == 797);
        assert((193int * 193) % 3329 == 630 && (797int * 797) % 3329 == 2699);
    } else if k == 6 {
        assert(zeta(6) == 1897 && zeta(12) == 2786 && zeta(13) == 3260);
        assert((2786int * 2786) % 3329 == 1897 && (3260int * 3260) % 3329 == 1432);
    } else if k == 7 {
        assert(zeta(7) == 848 && zeta(14) == 569 && zeta(15) == 1746);
        assert((569int * 569) % 3329 == 848 && (1746int * 1746) % 3329 == 2481);
    } else if k == 8 {
        assert(zeta(8) == 1062 && zeta(16) == 296 && zeta(17) == 2447);
        assert((296int * 296) % 3329 == 1062 && (2447int * 2447) % 3329 == 2267);
    } else if k == 9 {
        assert(zeta(9) == 1919 && zeta(18) == 1339 && zeta(19) == 1476);
        assert((1339int * 1339) % 3329 == 1919 && (1476int * 1476) % 3329 == 1410);
    } else if k == 10 {
        assert(zeta(10) == 193 && zeta(20) == 3046 && zeta(21) == 56);
        assert((3046int * 3046) % 3329 == 193 && (56int * 56) % 3329 == 3136);
    } else if k == 11 {
        assert(zeta(11) == 797 && zeta(22) == 2240 && zeta(23) == 1333);
        assert((2240int * 2240) % 3329 == 797 && (1333int * 1333) % 3329 == 2532);
    } else if k == 12 {
        assert(zeta(12) == 2786 && zeta(24) == 1426 && zeta(25) == 2094);
        assert((1426int * 1426) % 3329 == 2786 && (2094int * 2094) % 3329 == 543);
    } else if k == 13 {
        assert(zeta(13) == 3260 && zeta(26) == 535 && zeta(27) == 2882);
        assert((535int * 535) % 3329 == 3260 && (2882int * 2882) % 3329 == 69);
    } else if k == 14 {
        assert(zeta(14) == 569 && zeta(28) == 2393 && zeta(29) == 2879);
        assert((2393int * 2393) % 3329 == 569 && (2879int * 2879) % 3329 == 2760);
    } else if k == 15 {
        assert(zeta(15) == 1746 && zeta(30) == 1974 && zeta(31) == 821);
        assert((1974int * 1974) % 3329 == 1746 && (821int * 821) % 3329 == 1583);
    } else if k == 16 {
        assert(zeta(16) == 296 && zeta(32) == 289 && zeta(33) == 331);
        assert((289int * 289) % 3329 == 296 && (331int * 331) % 3329 == 3033);
    } else if k == 17 {
        assert(zeta(17) == 2447 && zeta(34) == 3253 && zeta(35) == 1756);
        assert((3253int * 3253) % 3329 == 2447 && (1756int * 1756) % 3329 == 882);
    } else if k == 18 {
        assert(zeta(18) == 1339 && zeta(36) == 1197 && zeta(37) == 2304);
        assert((1197int * 1197) % 3329 == 1339 && (2304int * 2304) % 3329 == 1990);
    } else if k == 19 {
        assert(zeta(19) == 1476 && zeta(38) == 2277 && zeta(39) == 2055);
        assert((2277int * 2277) % 3329 == 1476 && (2055int * 2055) % 3329 == 1853);
    } else if k == 20 {
        assert(zeta(20) == 3046 && zeta(40) == 650 && zeta(41) == 1977);
        assert((650int * 650) % 3329 == 3046 && (1977int * 1977) % 3329 == 283);
    } else if k == 21 {
        assert(zeta(21) == 56 && zeta(42) == 2513 && zeta(43) == 632);
        assert((2513int * 2513) % 3329 == 56 && (632int * 632) % 3329 == 3273);
    } else if k == 22 {
        assert(zeta(22) == 2240 && zeta(44) == 2865 && zeta(45) == 33);
        assert((2865int * 2865) % 3329 == 2240 && (33int * 33) % 3329 == 1089);
    } else if k == 23 {
        assert(zeta(23) == 1333 && zeta(46) == 1320 && zeta(47) == 1915);
        assert((1320int * 1320) % 3329 == 1333 && (1915int * 1915) % 3329 == 1996);
    } else if k == 24 {
        assert(zeta(24) == 1426 && zeta(48) == 2319 && zeta(49) == 1435);
        assert((2319int * 2319) % 3329 == 1426 && (1435int * 1435) % 3329 == 1903);
    } else if k == 25 {
        assert(zeta(25) == 2094 && zeta(50) == 807 && zeta(51) == 452);
        assert((807int * 807) % 3329 == 2094 && (452int * 452) % 3329 == 1235);
    } else if k == 26 {
        assert(zeta(26) == 535 && zeta(52) == 1438 && zeta(53) == 2868);
        assert((1438int * 1438) % 3329 == 535 && (2868int * 2868) % 3329 == 2794);
    } else if k == 27 {
        assert(zeta(27) == 2882 && zeta(54) == 1534 && zeta(55) == 2402);
        assert((1534int * 1534) % 3329 == 2882 && (2402int * 2402) % 3329 == 447);
    } else if k == 28 {
        assert(zeta(28) == 2393 && zeta(56) == 2647 && zeta(57) == 2617);
        assert((2647int * 2647) % 3329 == 2393 && (2617int * 2617) % 3329 == 936);
    } else if k == 29 {
        assert(zeta(29) == 2879 && zeta(58) == 1481 && zeta(59) == 648);
        assert((1481int * 1481) % 3329 == 2879 && (648int * 648) % 3329 == 450);
    } else if k == 30 {
        assert(zeta(30) == 1974 && zeta(60) == 2474 && zeta(61) == 3110);
        assert((2474int * 2474) % 3329 == 1974 && (3110int * 3110) % 3329 == 1355);
    } else if k == 31 {
        assert(zeta(31) == 821 && zeta(62) == 1227 && zeta(63) == 910);
        assert((1227int * 1227) % 3329 == 821 && (910int * 910) % 3329 == 2508);
    } else if k == 32 {
        assert(zeta(32) == 289 && zeta(64) == 17 && zeta(65) == 2761);
        assert((17int * 17) % 3329 == 289 && (2761int * 2761) % 3329 == 3040);
    } else if k == 33 {
        assert(zeta(33) == 331 && zeta(66) == 583 && zeta(67) == 2649);
        assert((583int * 583) % 3329 == 331 && (2649int * 2649) % 3329 == 2998);
    } else if k == 34 {
        assert(zeta(34) == 3253 && zeta(68) == 1637 && zeta(69) == 723);
        assert((1637int * 1637) % 3329 == 3253 && (723int * 723) % 3329 == 76);
    } else if k == 35 {
        assert(zeta(35) == 1756 && zeta(70) == 2288 && zeta(71) == 1100);
        assert((2288int * 2288) % 3329 == 1756 && (1100int * 1100) % 3329 == 1573);
    } else if k == 36 {
        assert(zeta(36) == 1197 && zeta(72) == 1409 && zeta(73) == 2662);
        assert((1409int * 1409) % 3329 == 1197 && (2662int * 2662) % 3329 == 2132);
    } else if k == 37 {
        assert(zeta(37) == 2304 && zeta(74) == 3281 && zeta(75) == 233);
        assert((3281int * 3281) % 3329 == 2304 && (233int * 233) % 3329 == 1025);
    } else if k == 38 {
        assert(zeta(38) == 2277 && zeta(76) == 756 && zeta(77) == 2156);
        assert((756int * 756) % 3329 == 2277 && (2156int * 2156) % 3329 == 1052);
    } else if k == 39 {
        assert(zeta(39) == 2055 && zeta(78) == 3015 && zeta(79) == 3050);
        assert((3015int * 3015) % 3329 == 2055 && (3050int * 3050) % 3329 == 1274);
    } else if k == 40 {
        assert(zeta(40) == 650 && zeta(80) == 1703 && zeta(81) == 1651);
        assert((1703int * 1703) % 3329 == 650 && (1651int * 1651) % 3329 == 2679);
    } else if k == 41 {
        assert(zeta(41) == 1977 && zeta(82) == 2789 && zeta(83) == 1789);
        assert((2789int * 2789) % 3329 == 1977 && (1789int * 1789) % 3329 == 1352);
    } else if k == 42 {
        assert(zeta(42) == 2513 && zeta(84) == 1847 && zeta(85) == 952);
        assert((1847int * 1847) % 3329 == 2513 && (952int * 952) % 3329 == 816);
    } else if k == 43 {
        assert(zeta(43) == 632 && zeta(86) == 1461 && zeta(87) == 2687);
        assert((1461int * 1461) % 3329 == 632 && (2687int * 2687) % 3329 == 2697);
    } else if k == 44 {
        assert(zeta(44) == 2865 && zeta(88) == 939 && zeta(89) == 2308);
        assert((939int * 939) % 3329 == 2865 && (2308int * 2308) % 3329 == 464);
    } else if k == 45 {
        assert(zeta(45) == 33 && zeta(90) == 2437 && zeta(91) == 2388);
        assert((2437int * 2437) % 3329 == 33 && (2388int * 2388) % 3329 == 3296);
    } else if k == 46 {
        assert(zeta(46) == 1320 && zeta(92) == 733 && zeta(93) == 2337);
        assert((733int * 733) % 3329 == 1320 && (2337int * 2337) % 3329 == 2009);
    } else if k == 47 {
        assert(zeta(47) == 1915 && zeta(94) == 268 && zeta(95) == 641);
        assert((268int * 268) % 3329 == 1915 && (641int * 641) % 3329 == 1414);
    } else if k == 48 {
        assert(zeta(48) == 2319 && zeta(96) == 1584 && zeta(97) == 2298);
        assert((1584int * 1584) % 3329 == 2319 && (2298int * 2298) % 3329 == 1010);
    } else if k == 49 {
        assert(zeta(49) == 1435 && zeta(98) == 2037 && zeta(99) == 3220);
        assert((2037int * 2037) % 3329 == 1435 && (3220int * 3220) % 3329 == 1894);
    } else if k == 50 {
        assert(zeta(50) == 807 && zeta(100) == 375 && zeta(101) == 2549);
        assert((375int * 375) % 3329 == 807 && (2549int * 2549) % 3329 == 2522);
    } else if k == 51 {
        assert(zeta(51) == 452 && zeta(102) == 2090 && zeta(103) == 1645);
        assert((2090int * 2090) % 3329 == 452 && (1645int * 1645) % 3329 == 2877);
    } else if k == 52 {
        assert(zeta(52) == 1438 && zeta(104) == 1063 && zeta(105) == 319);
        assert((1063int * 1063) % 3329 == 1438 && (319int * 319) % 3329 == 1891);
    } else if k == 53 {
        assert(zeta(53) == 2868 && zeta(106) == 2773 && zeta(107) == 757);
        assert((2773int * 2773) % 3329 == 2868 && (757int * 757) % 3329 == 461);
    } else if k == 54 {
        assert(zeta(54) == 1534 && zeta(108) == 2099 && zeta(109) == 561);
        assert((2099int * 2099) % 3329 == 1534 && (561int * 561) % 3329 == 1795);
    } else if k == 55 {
        assert(zeta(55) == 2402 && zeta(110) == 2466 && zeta(111) == 2594);
        assert((2466int * 2466) % 3329 == 2402 && (2594int * 2594) % 3329 == 927);
    } else if k == 56 {
        assert(zeta(56) == 2647 && zeta(112) == 2804 && zeta(113) == 1092);
        assert((2804int * 2804) % 3329 == 2647 && (1092int * 1092) % 3329 == 682);
    } else if k == 57 {
        assert(zeta(57) == 2617 && zeta(114) == 403 && zeta(115) == 1026);
        assert((403int * 403) % 3329 == 2617 && (1026int * 1026) % 3329 == 712);
    } else if k == 58 {
        assert(zeta(58) == 1481 && zeta(116) == 1143 && zeta(117) == 2150);
        assert((1143int * 1143) % 3329 == 1481 && (2150int * 2150) % 3329 == 1848);
    } else if k == 59 {
        assert(zeta(59) == 648 && zeta(118) == 2775 && zeta(119) == 886);
        assert((2775int * 2775) % 3329 == 648 && (886int * 886) % 3329 == 2681);
    } else if k == 60 {
        assert(zeta(60) == 2474 && zeta(120) == 1722 && zeta(121) == 1212);
        assert((1722int * 1722) % 3329 == 2474 && (1212int * 1212) % 3329 == 855);
    } else if k == 61 {
        assert(zeta(61) == 3110 && zeta(122) == 1874 && zeta(123) == 1029);
        assert((1874int * 1874) % 3329 == 3110 && (1029int * 1029) % 3329 == 219);
    } else if k == 62 {
        assert(zeta(62) == 1227 && zeta(124) == 2110 && zeta(125) == 2935);
        assert((2110int * 2110) % 3329 == 1227 && (2935int * 2935) % 3329 == 2102);
    } else {
        assert(zeta(63) == 910 && zeta(126) == 885 && zeta(127) == 2154);
        assert((885int * 885) % 3329 == 910 && (2154int * 2154) % 3329 == 2419);
    }
}

} // verus!
