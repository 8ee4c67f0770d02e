//! The modulus is prime: a product of numbers is divisible by it only where a
//! factor is. The number 7 generates all residues but zero, which shows that each
//! of them has an inverse.
use vstd::arithmetic::div_mod::{
    lemma_fundamental_div_mod, lemma_mod_bound, lemma_mul_mod_noop_left, lemma_mul_mod_noop_right,
    lemma_small_mod,
};
use vstd::prelude::*;
use vstd::relations::injective_on;
use vstd::set_lib::{lemma_int_range, lemma_map_size, lemma_subset_equality, set_int_range};

use crate::field::P;

verus! {

/// The number of residues other than zero.
pub const UNITS: u32 = 0x7fff_fffe;

/// The residue of 7 to the power of `e`.
#[verifier::opaque]
spec fn power(e: nat) -> int
    decreases e,
{
    if e == 0 {
        1
    } else {
        7 * power((e - 1) as nat) % (P as int)
    }
}

proof fn lemma_power_range(e: nat)
    ensures
        0 <= power(e) < P,
{
    reveal(power);
    if e > 0 {
        lemma_mod_bound(7 * power((e - 1) as nat), P as int);
    }
}

/// Powers multiply where exponents add.
proof fn lemma_power_add(a: nat, b: nat)
    ensures
        power(a + b) == power(a) * power(b) % (P as int),
    decreases b,
{
    let p = P as int;
    lemma_power_range(a);
    if b == 0 {
        reveal(power);
        lemma_small_mod(power(a) as nat, P as nat);
    } else {
        let c = (b - 1) as nat;
        lemma_power_add(a, c);
        let (x, y) = (power(a), power(c));
        assert(power(a + b) == 7 * (x * y % p) % p) by {
            reveal(power);
        }
        assert(power(b) == 7 * y % p) by {
            reveal(power);
        }
        lemma_mul_mod_noop_right(7, x * y, p);
        lemma_mul_mod_noop_right(x, 7 * y, p);
        assert(7 * (x * y) == x * (7 * y)) by (nonlinear_arith);
    }
}

/// Doubles an exponent and adds `b` to it.
proof fn lemma_step(e: nat, b: nat, v: int)
    requires
        b <= 1,
        power(e) == v,
    ensures
        power(2 * e + b) == (if b == 1 {
            7 * (v * v % (P as int)) % (P as int)
        } else {
            v * v % (P as int)
        }),
{
    lemma_power_add(e, e);
    assert(e + e == 2 * e);
    if b == 1 {
        reveal(power);
    }
}

proof fn lemma_power_one()
    ensures
        power(0) == 1,
        power(1) == 7,
{
    reveal(power);
    assert(power(0) == 1);
}

/// The whole group: the power is one.
proof fn lemma_power_units()
    ensures
        power(2147483646) == 1,
{
    lemma_power_over_2();
    lemma_step(1073741823, 0, 2147483646);
}

proof fn lemma_power_over_2()
    ensures
        power(1073741823) == 2147483646,
{
    lemma_power_one();
    lemma_step(1, 1, 7);
    assert(power(3) == 343);
    lemma_step(3, 1, 343);
    assert(power(7) == 823543);
    lemma_step(7, 1, 823543);
    assert(power(15) == 1622650073);
    lemma_step(15, 1, 1622650073);
    assert(power(31) == 1143995257);
    lemma_step(31, 1, 1143995257);
    assert(power(63) == 343201429);
    lemma_step(63, 1, 343201429);
    assert(power(127) == 992518913);
    lemma_step(127, 1, 992518913);
    assert(power(255) == 1646035001);
    lemma_step(255, 1, 1646035001);
    assert(power(511) == 591463338);
    lemma_step(511, 1, 591463338);
    assert(power(1023) == 782353259);
    lemma_step(1023, 1, 782353259);
    assert(power(2047) == 1329249609);
    lemma_step(2047, 1, 1329249609);
    assert(power(4095) == 1887985652);
    lemma_step(4095, 1, 1887985652);
    assert(power(8191) == 1460376695);
    lemma_step(8191, 1, 1460376695);
    assert(power(16383) == 1990648651);
    lemma_step(16383, 1, 1990648651);
    assert(power(32767) == 1734770806);
    lemma_step(32767, 1, 1734770806);
    assert(power(65535) == 1244035718);
    lemma_step(65535, 1, 1244035718);
    assert(power(131071) == 765703075);
    lemma_step(131071, 1, 765703075);
    assert(power(262143) == 1363469869);
    lemma_step(262143, 1, 1363469869);
    assert(power(524287) == 1597744691);
    lemma_step(524287, 1, 1597744691);
    assert(power(1048575) == 433311905);
    lemma_step(1048575, 1, 433311905);
    assert(power(2097151) == 1248782549);
    lemma_step(2097151, 1, 1248782549);
    assert(power(4194303) == 379819458);
    lemma_step(4194303, 1, 379819458);
    assert(power(8388607) == 1553672423);
    lemma_step(8388607, 1, 1553672423);
    assert(power(16777215) == 1892905794);
    lemma_step(16777215, 1, 1892905794);
    assert(power(33554431) == 1526357038);
    lemma_step(33554431, 1, 1526357038);
    assert(power(67108863) == 1508215062);
    lemma_step(67108863, 1, 1508215062);
    assert(power(134217727) == 424903933);
    lemma_step(134217727, 1, 424903933);
    assert(power(268435455) == 286198620);
    lemma_step(268435455, 1, 286198620);
    assert(power(536870911) == 1827226863);
    lemma_step(536870911, 1, 1827226863);
    assert(power(1073741823) == 2147483646);
}

proof fn lemma_power_over_3()
    ensures
        power(715827882) == 1513477735,
{
    lemma_power_one();
    lemma_step(1, 0, 7);
    assert(power(2) == 49);
    lemma_step(2, 1, 49);
    assert(power(5) == 16807);
    lemma_step(5, 0, 16807);
    assert(power(10) == 282475249);
    lemma_step(10, 1, 282475249);
    assert(power(21) == 452154665);
    lemma_step(21, 0, 452154665);
    assert(power(42) == 567732671);
    lemma_step(42, 1, 567732671);
    assert(power(85) == 1441282327);
    lemma_step(85, 0, 1441282327);
    assert(power(170) == 101929267);
    lemma_step(170, 1, 101929267);
    assert(power(341) == 1363931856);
    lemma_step(341, 0, 1363931856);
    assert(power(682) == 2144351583);
    lemma_step(682, 1, 2144351583);
    assert(power(1365) == 837204200);
    lemma_step(1365, 0, 837204200);
    assert(power(2730) == 702715827);
    lemma_step(2730, 1, 702715827);
    assert(power(5461) == 394635849);
    lemma_step(5461, 0, 394635849);
    assert(power(10922) == 57777560);
    lemma_step(10922, 1, 57777560);
    assert(power(21845) == 2031128932);
    lemma_step(21845, 0, 2031128932);
    assert(power(43690) == 2039727126);
    lemma_step(43690, 1, 2039727126);
    assert(power(87381) == 814620268);
    lemma_step(87381, 0, 814620268);
    assert(power(174762) == 1440264748);
    lemma_step(174762, 1, 1440264748);
    assert(power(349525) == 651109724);
    lemma_step(349525, 0, 651109724);
    assert(power(699050) == 1275070073);
    lemma_step(699050, 1, 1275070073);
    assert(power(1398101) == 621115943);
    lemma_step(1398101, 0, 621115943);
    assert(power(2796202) == 1350851787);
    lemma_step(2796202, 1, 1350851787);
    assert(power(5592405) == 1197713631);
    lemma_step(5592405, 0, 1197713631);
    assert(power(11184810) == 1706053424);
    lemma_step(11184810, 1, 1706053424);
    assert(power(22369621) == 787934656);
    lemma_step(22369621, 0, 787934656);
    assert(power(44739242) == 1527277373);
    lemma_step(44739242, 1, 1527277373);
    assert(power(89478485) == 626042666);
    lemma_step(89478485, 0, 626042666);
    assert(power(178956970) == 373859930);
    lemma_step(178956970, 1, 373859930);
    assert(power(357913941) == 1513477736);
    lemma_step(357913941, 0, 1513477736);
    assert(power(715827882) == 1513477735);
}

proof fn lemma_power_over_7()
    ensures
        power(306783378) == 1205362885,
{
    lemma_power_one();
    lemma_step(1, 0, 7);
    assert(power(2) == 49);
    lemma_step(2, 0, 49);
    assert(power(4) == 2401);
    lemma_step(4, 1, 2401);
    assert(power(9) == 40353607);
    lemma_step(9, 0, 40353607);
    assert(power(18) == 370710466);
    lemma_step(18, 0, 370710466);
    assert(power(36) == 707192808);
    lemma_step(36, 1, 707192808);
    assert(power(73) == 1843043289);
    lemma_step(73, 0, 1843043289);
    assert(power(146) == 1958495418);
    lemma_step(146, 0, 1958495418);
    assert(power(292) == 2115610783);
    lemma_step(292, 1, 2115610783);
    assert(power(585) == 343098142);
    lemma_step(585, 0, 343098142);
    assert(power(1170) == 298918984);
    lemma_step(1170, 0, 298918984);
    assert(power(2340) == 1429157787);
    lemma_step(2340, 1, 1429157787);
    assert(power(4681) == 1338456531);
    lemma_step(4681, 0, 1338456531);
    assert(power(9362) == 1590871391);
    lemma_step(9362, 0, 1590871391);
    assert(power(18724) == 1917208117);
    lemma_step(18724, 1, 1917208117);
    assert(power(37449) == 2144369227);
    lemma_step(37449, 0, 2144369227);
    assert(power(74898) == 1575786548);
    lemma_step(74898, 0, 1575786548);
    assert(power(149796) == 122244366);
    lemma_step(149796, 1, 122244366);
    assert(power(299593) == 522534449);
    lemma_step(299593, 0, 522534449);
    assert(power(599186) == 1859770966);
    lemma_step(599186, 0, 1859770966);
    assert(power(1198372) == 671250160);
    lemma_step(1198372, 1, 671250160);
    assert(power(2396745) == 1553575855);
    lemma_step(2396745, 0, 1553575855);
    assert(power(4793490) == 45899444);
    lemma_step(4793490, 0, 45899444);
    assert(power(9586980) == 192390844);
    lemma_step(9586980, 1, 192390844);
    assert(power(19173961) == 718502392);
    lemma_step(19173961, 0, 718502392);
    assert(power(38347922) == 926975407);
    lemma_step(38347922, 0, 926975407);
    assert(power(76695844) == 1730732297);
    lemma_step(76695844, 1, 1730732297);
    assert(power(153391689) == 610312904);
    lemma_step(153391689, 0, 610312904);
    assert(power(306783378) == 1205362885);
}

proof fn lemma_power_over_11()
    ensures
        power(195225786) == 1969212174,
{
    lemma_power_one();
    lemma_step(1, 0, 7);
    assert(power(2) == 49);
    lemma_step(2, 1, 49);
    assert(power(5) == 16807);
    lemma_step(5, 1, 16807);
    assert(power(11) == 1977326743);
    lemma_step(11, 1, 1977326743);
    assert(power(23) == 680742115);
    lemma_step(23, 0, 680742115);
    assert(power(46) == 1621510873);
    lemma_step(46, 1, 1621510873);
    assert(power(93) == 1375415753);
    lemma_step(93, 0, 1375415753);
    assert(power(186) == 920132265);
    lemma_step(186, 0, 920132265);
    assert(power(372) == 1668712169);
    lemma_step(372, 0, 1668712169);
    assert(power(744) == 690914947);
    lemma_step(744, 1, 690914947);
    assert(power(1489) == 1728637651);
    lemma_step(1489, 0, 1728637651);
    assert(power(2978) == 562480244);
    lemma_step(2978, 1, 562480244);
    assert(power(5957) == 1456807490);
    lemma_step(5957, 1, 1456807490);
    assert(power(11915) == 304813979);
    lemma_step(11915, 1, 304813979);
    assert(power(23831) == 935838453);
    lemma_step(23831, 0, 935838453);
    assert(power(47662) == 195895749);
    lemma_step(47662, 1, 195895749);
    assert(power(95325) == 644964109);
    lemma_step(95325, 0, 644964109);
    assert(power(190650) == 1951423362);
    lemma_step(190650, 0, 1951423362);
    assert(power(381300) == 195528275);
    lemma_step(381300, 0, 195528275);
    assert(power(762600) == 701801792);
    lemma_step(762600, 1, 701801792);
    assert(power(1525201) == 677522921);
    lemma_step(1525201, 0, 677522921);
    assert(power(3050402) == 190670353);
    lemma_step(3050402, 1, 190670353);
    assert(power(6100805) == 2019628993);
    lemma_step(6100805, 1, 2019628993);
    assert(power(12201611) == 968366044);
    lemma_step(12201611, 1, 968366044);
    assert(power(24403223) == 595711377);
    lemma_step(24403223, 0, 595711377);
    assert(power(48806446) == 505815198);
    lemma_step(48806446, 1, 505815198);
    assert(power(97612893) == 1327797538);
    lemma_step(97612893, 0, 1327797538);
    assert(power(195225786) == 1969212174);
}

proof fn lemma_power_over_31()
    ensures
        power(69273666) == 512,
{
    lemma_power_one();
    lemma_step(1, 0, 7);
    assert(power(2) == 49);
    lemma_step(2, 0, 49);
    assert(power(4) == 2401);
    lemma_step(4, 0, 2401);
    assert(power(8) == 5764801);
    lemma_step(8, 0, 5764801);
    assert(power(16) == 621132276);
    lemma_step(16, 1, 621132276);
    assert(power(33) == 221192771);
    lemma_step(33, 0, 221192771);
    assert(power(66) == 1753973209);
    lemma_step(66, 0, 1753973209);
    assert(power(132) == 1759884542);
    lemma_step(132, 0, 1759884542);
    assert(power(264) == 72945244);
    lemma_step(264, 0, 72945244);
    assert(power(528) == 1558970347);
    lemma_step(528, 1, 1558970347);
    assert(power(1057) == 556445981);
    lemma_step(1057, 0, 556445981);
    assert(power(2114) == 447033049);
    lemma_step(2114, 0, 447033049);
    assert(power(4228) == 98083876);
    lemma_step(4228, 0, 98083876);
    assert(power(8456) == 1312981133);
    lemma_step(8456, 0, 1312981133);
    assert(power(16912) == 622492898);
    lemma_step(16912, 1, 622492898);
    assert(power(33825) == 1393777757);
    lemma_step(33825, 0, 1393777757);
    assert(power(67650) == 1527519359);
    lemma_step(67650, 0, 1527519359);
    assert(power(135300) == 1493385978);
    lemma_step(135300, 0, 1493385978);
    assert(power(270600) == 893936989);
    lemma_step(270600, 0, 893936989);
    assert(power(541200) == 1151377580);
    lemma_step(541200, 1, 1151377580);
    assert(power(1082401) == 1148475122);
    lemma_step(1082401, 0, 1148475122);
    assert(power(2164802) == 494109411);
    lemma_step(2164802, 0, 494109411);
    assert(power(4329604) == 1336153301);
    lemma_step(4329604, 0, 1336153301);
    assert(power(8659208) == 1512527173);
    lemma_step(8659208, 0, 1512527173);
    assert(power(17318416) == 1525432472);
    lemma_step(17318416, 1, 1525432472);
    assert(power(34636833) == 2146435071);
    lemma_step(34636833, 0, 2146435071);
    assert(power(69273666) == 512);
}

proof fn lemma_power_over_151()
    ensures
        power(14221746) == 535044134,
{
    lemma_power_one();
    lemma_step(1, 1, 7);
    assert(power(3) == 343);
    lemma_step(3, 0, 343);
    assert(power(6) == 117649);
    lemma_step(6, 1, 117649);
    assert(power(13) == 252246292);
    lemma_step(13, 1, 252246292);
    assert(power(27) == 226762748);
    lemma_step(27, 0, 226762748);
    assert(power(54) == 424435441);
    lemma_step(54, 0, 424435441);
    assert(power(108) == 424534408);
    lemma_step(108, 1, 424534408);
    assert(power(217) == 881240612);
    lemma_step(217, 0, 881240612);
    assert(power(434) == 1146211578);
    lemma_step(434, 0, 1146211578);
    assert(power(868) == 1321894452);
    lemma_step(868, 0, 1321894452);
    assert(power(1736) == 482929059);
    lemma_step(1736, 0, 482929059);
    assert(power(3472) == 308494172);
    lemma_step(3472, 0, 308494172);
    assert(power(6944) == 58367958);
    lemma_step(6944, 0, 58367958);
    assert(power(13888) == 1071365083);
    lemma_step(13888, 0, 1071365083);
    assert(power(27776) == 1550283642);
    lemma_step(27776, 1, 1550283642);
    assert(power(55553) == 80158273);
    lemma_step(55553, 1, 80158273);
    assert(power(111107) == 296267012);
    lemma_step(111107, 0, 296267012);
    assert(power(222214) == 345904204);
    lemma_step(222214, 1, 345904204);
    assert(power(444429) == 590536941);
    lemma_step(444429, 1, 590536941);
    assert(power(888859) == 1428853371);
    lemma_step(888859, 0, 1428853371);
    assert(power(1777718) == 1255612365);
    lemma_step(1777718, 0, 1255612365);
    assert(power(3555436) == 504066171);
    lemma_step(3555436, 1, 504066171);
    assert(power(7110873) == 21925355);
    lemma_step(7110873, 0, 21925355);
    assert(power(14221746) == 535044134);
}

proof fn lemma_power_over_331()
    ensures
        power(6487866) == 1761855083,
{
    lemma_power_one();
    lemma_step(1, 1, 7);
    assert(power(3) == 343);
    lemma_step(3, 0, 343);
    assert(power(6) == 117649);
    lemma_step(6, 0, 117649);
    assert(power(12) == 956385319);
    lemma_step(12, 0, 956385319);
    assert(power(24) == 470227511);
    lemma_step(24, 1, 470227511);
    assert(power(49) == 2127448513);
    lemma_step(49, 0, 2127448513);
    assert(power(98) == 1098584363);
    lemma_step(98, 1, 1098584363);
    assert(power(197) == 1204377315);
    lemma_step(197, 1, 1204377315);
    assert(power(395) == 1635339425);
    lemma_step(395, 1, 1635339425);
    assert(power(791) == 1199962732);
    lemma_step(791, 1, 1199962732);
    assert(power(1583) == 269226311);
    lemma_step(1583, 1, 269226311);
    assert(power(3167) == 215396874);
    lemma_step(3167, 1, 215396874);
    assert(power(6335) == 415825199);
    lemma_step(6335, 1, 415825199);
    assert(power(12671) == 1550958642);
    lemma_step(12671, 1, 1550958642);
    assert(power(25343) == 174368244);
    lemma_step(25343, 0, 174368244);
    assert(power(50686) == 588020130);
    lemma_step(50686, 0, 588020130);
    assert(power(101372) == 1989369407);
    lemma_step(101372, 1, 1989369407);
    assert(power(202745) == 641787029);
    lemma_step(202745, 1, 641787029);
    assert(power(405491) == 305845094);
    lemma_step(405491, 1, 305845094);
    assert(power(810983) == 1202562539);
    lemma_step(810983, 0, 1202562539);
    assert(power(1621966) == 759846237);
    lemma_step(1621966, 1, 759846237);
    assert(power(3243933) == 164185298);
    lemma_step(3243933, 0, 164185298);
    assert(power(6487866) == 1761855083);
}

/// Where the power of `a` and that of `b` are one, so is that of `a % b`.
proof fn lemma_power_mod(a: nat, b: nat)
    requires
        b > 0,
        power(a) == 1,
        power(b) == 1,
    ensures
        power(a % b) == 1,
{
    let k = a / b;
    lemma_fundamental_div_mod(a as int, b as int);
    lemma_power_multiple(b, k);
    assert(b * k >= 0) by (nonlinear_arith)
        requires
            b > 0,
            k >= 0,
    ;
    lemma_power_add((b * k) as nat, a % b);
    lemma_power_range(a % b);
    lemma_small_mod(power(a % b) as nat, P as nat);
}

proof fn lemma_power_multiple(b: nat, k: nat)
    requires
        power(b) == 1,
    ensures
        power((b * k) as nat) == 1,
    decreases k,
{
    if k == 0 {
        lemma_power_one();
        assert(b * k == 0) by (nonlinear_arith)
            requires
                k == 0,
        ;
    } else {
        lemma_power_multiple(b, (k - 1) as nat);
        lemma_power_add((b * (k - 1)) as nat, b);
        assert(b * k == b * (k - 1) + b) by (nonlinear_arith)
            requires
                k > 0,
        ;
        assert(b * (k - 1) >= 0) by (nonlinear_arith)
            requires
                k > 0,
                b >= 0,
        ;
    }
}

/// A common divisor of `a` and `b` that is a combination of both.
spec fn is_gcd(a: nat, b: nat, g: nat, u: int, v: int) -> bool {
    &&& g > 0
    &&& a % g == 0
    &&& b % g == 0
    &&& g == u * a + v * b
}

/// Euclid's algorithm.
proof fn lemma_gcd(a: nat, b: nat) -> (r: (nat, int, int))
    requires
        a > 0 || b > 0,
    ensures
        is_gcd(a, b, r.0, r.1, r.2),
        power(a) == 1 && power(b) == 1 ==> power(r.0) == 1,
    decreases b,
{
    if b == 0 {
        assert(a % a == 0 && 0nat % a == 0) by {
            vstd::arithmetic::div_mod::lemma_mod_self_0(a as int);
            lemma_small_mod(0, a);
        }
        (a, 1, 0)
    } else {
        lemma_mod_bound(a as int, b as int);
        let (g, u, v) = lemma_gcd(b, a % b);
        if power(a) == 1 && power(b) == 1 {
            lemma_power_mod(a, b);
        }
        let (q, m) = ((a / b) as int, (a % b) as int);
        lemma_fundamental_div_mod(a as int, b as int);
        assert(a == b * q + m);
        lemma_divisible_sum(b as int * q, m, b as int, q, g as int);
        assert(g == v * a + (u - v * q) * b) by (nonlinear_arith)
            requires
                g == u * b + v * m,
                a == b * q + m,
        ;
        (g, v, u - v * q)
    }
}

/// A divisor of `b` and of `m` divides `b * q + m`.
proof fn lemma_divisible_sum(bq: int, m: int, b: int, q: int, g: int)
    requires
        g > 0,
        bq == b * q,
        b % g == 0,
        m % g == 0,
    ensures
        (bq + m) % g == 0,
{
    lemma_fundamental_div_mod(b, g);
    lemma_fundamental_div_mod(m, g);
    let (x, y) = (b / g, m / g);
    assert(bq + m == (x * q + y) * g) by (nonlinear_arith)
        requires
            bq == b * q,
            b == g * x,
            m == g * y,
    ;
    vstd::arithmetic::div_mod::lemma_mod_multiples_basic(x * q + y, g);
}

/// `q` has no divisors but one and itself.
spec fn is_small_prime(q: nat) -> bool {
    q > 1 && forall|g: nat| 0 < g && #[trigger] (q % g) == 0 ==> g == 1 || g == q
}

/// A divisor of `q * m` that `q` does not divide is a divisor of `m`.
proof fn lemma_drop_factor(e: nat, q: nat, m: nat)
    requires
        e > 0,
        is_small_prime(q),
        (q * m) as int % e as int == 0,
        e % q != 0,
    ensures
        m % e == 0,
{
    let (g, u, v) = lemma_gcd(e, q);
    assert(q % g == 0);
    assert(g == 1 || g == q);
    assert(g == 1);
    lemma_fundamental_div_mod((q * m) as int, e as int);
    let k = (q * m) as int / e as int;
    let w = u * m + v * k;
    assert(m == w * e) by (nonlinear_arith)
        requires
            1 == u * e + v * q,
            q * m == e * k,
            w == u * m + v * k,
    ;
    vstd::arithmetic::div_mod::lemma_mod_multiples_basic(w, e as int);
}

/// What is left of a divisor of the number of units when all primes are dropped.
proof fn lemma_divisor_has_prime(e: nat)
    requires
        e > 1,
        2147483646nat % e == 0,
    ensures
        e % 2 == 0 || e % 3 == 0 || e % 7 == 0 || e % 11 == 0 || e % 31 == 0 || e % 151 == 0 || e
            % 331 == 0,
{
    if !(e % 2 == 0 || e % 3 == 0 || e % 7 == 0 || e % 11 == 0 || e % 31 == 0 || e % 151 == 0 || e
        % 331 == 0) {
        lemma_small_primes();
        lemma_drop_factor(e, 2, 1073741823);
        lemma_drop_factor(e, 3, 357913941);
        lemma_drop_factor(e, 3, 119304647);
        lemma_drop_factor(e, 7, 17043521);
        lemma_drop_factor(e, 11, 1549411);
        lemma_drop_factor(e, 31, 49981);
        lemma_drop_factor(e, 151, 331);
        lemma_drop_factor(e, 331, 1);
        lemma_small_mod(1, e);
    }
}

/// A divisor of a number below 361 or its codivisor is below 19.
proof fn lemma_small_prime(q: nat)
    requires
        1 < q < 361,
        forall|d: nat| 1 < d < 19 && d < q ==> #[trigger] (q % d) != 0,
    ensures
        is_small_prime(q),
{
    assert forall|g: nat| 0 < g && #[trigger] (q % g) == 0 implies g == 1 || g == q by {
        lemma_fundamental_div_mod(q as int, g as int);
        let h = q / g;
        if g != 1 && g != q {
            assert(q == g * h);
            assert(1 < h < q && 1 < g < q) by (nonlinear_arith)
                requires
                    q == g * h,
                    g != 1,
                    g != q,
                    g > 0,
                    q > 1,
                    h >= 0,
            ;
            if g < 19 {
                assert(q % g != 0);
            } else {
                assert(h < 19) by (nonlinear_arith)
                    requires
                        q == g * h,
                        g >= 19,
                        q < 361,
                        h >= 0,
                ;
                assert(g * h % h == 0) by {
                    vstd::arithmetic::div_mod::lemma_mod_multiples_basic(g as int, h as int);
                }
                assert(q % h == 0);
            }
        }
    }
}

proof fn lemma_small_primes()
    ensures
        is_small_prime(2),
        is_small_prime(3),
        is_small_prime(7),
        is_small_prime(11),
        is_small_prime(31),
        is_small_prime(151),
        is_small_prime(331),
{
    lemma_small_prime(2);
    assert forall|d: nat| 1 < d < 19 && d < 3 implies #[trigger] (3nat % d) != 0 by {
        if d == 2 {
            assert(3nat % 2 == 1);
        }
    }
    lemma_small_prime(3);
    assert forall|d: nat| 1 < d < 19 && d < 7 implies #[trigger] (7nat % d) != 0 by {
        if d == 2 {
            assert(7nat % 2 == 1);
        } else if d == 3 {
            assert(7nat % 3 == 1);
        } else if d == 4 {
            assert(7nat % 4 == 3);
        } else if d == 5 {
            assert(7nat % 5 == 2);
        } else if d == 6 {
            assert(7nat % 6 == 1);
        }
    }
    lemma_small_prime(7);
    assert forall|d: nat| 1 < d < 19 && d < 11 implies #[trigger] (11nat % d) != 0 by {
        if d == 2 {
            assert(11nat % 2 == 1);
        } else if d == 3 {
            assert(11nat % 3 == 2);
        } else if d == 4 {
            assert(11nat % 4 == 3);
        } else if d == 5 {
            assert(11nat % 5 == 1);
        } else if d == 6 {
            assert(11nat % 6 == 5);
        } else if d == 7 {
            assert(11nat % 7 == 4);
        } else if d == 8 {
            assert(11nat % 8 == 3);
        } else if d == 9 {
            assert(11nat % 9 == 2);
        } else if d == 10 {
            assert(11nat % 10 == 1);
        }
    }
    lemma_small_prime(11);
    assert forall|d: nat| 1 < d < 19 && d < 31 implies #[trigger] (31nat % d) != 0 by {
        if d == 2 {
            assert(31nat % 2 == 1);
        } else if d == 3 {
            assert(31nat % 3 == 1);
        } else if d == 4 {
            assert(31nat % 4 == 3);
        } else if d == 5 {
            assert(31nat % 5 == 1);
        } else if d == 6 {
            assert(31nat % 6 == 1);
        } else if d == 7 {
            assert(31nat % 7 == 3);
        } else if d == 8 {
            assert(31nat % 8 == 7);
        } else if d == 9 {
            assert(31nat % 9 == 4);
        } else if d == 10 {
            assert(31nat % 10 == 1);
        } else if d == 11 {
            assert(31nat % 11 == 9);
        } else if d == 12 {
            assert(31nat % 12 == 7);
        } else if d == 13 {
            assert(31nat % 13 == 5);
        } else if d == 14 {
            assert(31nat % 14 == 3);
        } else if d == 15 {
            assert(31nat % 15 == 1);
        } else if d == 16 {
            assert(31nat % 16 == 15);
        } else if d == 17 {
            assert(31nat % 17 == 14);
        } else if d == 18 {
            assert(31nat % 18 == 13);
        }
    }
    lemma_small_prime(31);
    assert forall|d: nat| 1 < d < 19 && d < 151 implies #[trigger] (151nat % d) != 0 by {
        if d == 2 {
            assert(151nat % 2 == 1);
        } else if d == 3 {
            assert(151nat % 3 == 1);
        } else if d == 4 {
            assert(151nat % 4 == 3);
        } else if d == 5 {
            assert(151nat % 5 == 1);
        } else if d == 6 {
            assert(151nat % 6 == 1);
        } else if d == 7 {
            assert(151nat % 7 == 4);
        } else if d == 8 {
            assert(151nat % 8 == 7);
        } else if d == 9 {
            assert(151nat % 9 == 7);
        } else if d == 10 {
            assert(151nat % 10 == 1);
        } else if d == 11 {
            assert(151nat % 11 == 8);
        } else if d == 12 {
            assert(151nat % 12 == 7);
        } else if d == 13 {
            assert(151nat % 13 == 8);
        } else if d == 14 {
            assert(151nat % 14 == 11);
        } else if d == 15 {
            assert(151nat % 15 == 1);
        } else if d == 16 {
            assert(151nat % 16 == 7);
        } else if d == 17 {
            assert(151nat % 17 == 15);
        } else if d == 18 {
            assert(151nat % 18 == 7);
        }
    }
    lemma_small_prime(151);
    assert forall|d: nat| 1 < d < 19 && d < 331 implies #[trigger] (331nat % d) != 0 by {
        if d == 2 {
            assert(331nat % 2 == 1);
        } else if d == 3 {
            assert(331nat % 3 == 1);
        } else if d == 4 {
            assert(331nat % 4 == 3);
        } else if d == 5 {
            assert(331nat % 5 == 1);
        } else if d == 6 {
            assert(331nat % 6 == 1);
        } else if d == 7 {
            assert(331nat % 7 == 2);
        } else if d == 8 {
            assert(331nat % 8 == 3);
        } else if d == 9 {
            assert(331nat % 9 == 7);
        } else if d == 10 {
            assert(331nat % 10 == 1);
        } else if d == 11 {
            assert(331nat % 11 == 1);
        } else if d == 12 {
            assert(331nat % 12 == 7);
        } else if d == 13 {
            assert(331nat % 13 == 6);
        } else if d == 14 {
            assert(331nat % 14 == 9);
        } else if d == 15 {
            assert(331nat % 15 == 1);
        } else if d == 16 {
            assert(331nat % 16 == 11);
        } else if d == 17 {
            assert(331nat % 17 == 8);
        } else if d == 18 {
            assert(331nat % 18 == 7);
        }
    }
    lemma_small_prime(331);
}

/// No smaller power of 7 is one.
proof fn lemma_order(i: nat)
    requires
        0 < i < UNITS,
    ensures
        power(i) != 1,
{
    if power(i) == 1 {
        lemma_power_units();
        let n: nat = 2147483646;
        let (g, u, v) = lemma_gcd(i, n);
        lemma_fundamental_div_mod(n as int, g as int);
        lemma_fundamental_div_mod(i as int, g as int);
        let e = n / g;
        let k = i / g;
        assert(n == g * e && i == g * k);
        assert(e > 1) by (nonlinear_arith)
            requires
                n == g * e,
                i == g * k,
                0 < i < n,
                g > 0,
                e >= 0,
                k >= 0,
        ;
        vstd::arithmetic::div_mod::lemma_mod_multiples_basic(g as int, e as int);
        assert(n % e == 0);
        lemma_divisor_has_prime(e);
        lemma_power_over_2();
        lemma_power_over_3();
        lemma_power_over_7();
        lemma_power_over_11();
        lemma_power_over_31();
        lemma_power_over_151();
        lemma_power_over_331();
        if e % 2 == 0 {
            lemma_cofactor(g, e, 2);
        } else if e % 3 == 0 {
            lemma_cofactor(g, e, 3);
        } else if e % 7 == 0 {
            lemma_cofactor(g, e, 7);
        } else if e % 11 == 0 {
            lemma_cofactor(g, e, 11);
        } else if e % 31 == 0 {
            lemma_cofactor(g, e, 31);
        } else if e % 151 == 0 {
            lemma_cofactor(g, e, 151);
        } else {
            lemma_cofactor(g, e, 331);
        }
    }
}

/// Where the power of `g` is one, so is that of the number of units over `q`.
proof fn lemma_cofactor(g: nat, e: nat, q: nat)
    requires
        power(g) == 1,
        g * e == 2147483646,
        q > 0,
        e % q == 0,
    ensures
        power(2147483646nat / q) == 1,
{
    let k = e / q;
    lemma_fundamental_div_mod(e as int, q as int);
    lemma_power_multiple(g, k);
    assert(g * k >= 0) by (nonlinear_arith)
        requires
            g >= 0,
            k >= 0,
    ;
    assert(2147483646 == (g * k) * q) by (nonlinear_arith)
        requires
            g * e == 2147483646,
            e == q * k,
    ;
    vstd::arithmetic::div_mod::lemma_div_multiples_vanish((g * k) as int, q as int);
    assert((g * k) * q == q * (g * k)) by (nonlinear_arith);
}

/// The power of `i` times that of what is left of the group is one.
proof fn lemma_power_inverse(i: nat)
    requires
        i <= UNITS,
    ensures
        power(i) * power((UNITS - i) as nat) % (P as int) == 1,
        0 < power(i) < P,
{
    lemma_power_units();
    lemma_power_add(i, (UNITS - i) as nat);
    assert(i + (UNITS - i) == 2147483646);
    lemma_power_range(i);
    if power(i) == 0 {
        assert(power(i) * power((UNITS - i) as nat) == 0) by (nonlinear_arith)
            requires
                power(i) == 0,
        ;
        lemma_small_mod(0, P as nat);
    }
}

/// Distinct exponents give distinct powers.
proof fn lemma_power_distinct(i: nat, j: nat)
    requires
        i < j < UNITS,
    ensures
        power(i) != power(j),
{
    let p = P as int;
    let d = (j - i) as nat;
    if power(i) == power(j) {
        lemma_power_inverse(i);
        let (x, y, z) = (power(i), power((UNITS - i) as nat), power(d));
        lemma_power_add(i, d);
        assert(x == x * z % p);
        // y * x == y * x * z, and y * x is one.
        lemma_mul_mod_noop_right(y, x * z, p);
        assert(y * (x * z) == (x * y) * z) by (nonlinear_arith);
        lemma_mul_mod_noop_left(x * y, z, p);
        assert(y * x == x * y) by (nonlinear_arith);
        lemma_power_range(d);
        lemma_small_mod(z as nat, P as nat);
        assert(z == 1);
        lemma_order(d);
    }
}

/// Every residue but zero is a power of 7.
proof fn lemma_powers_cover(x: int)
    requires
        0 < x < P,
    ensures
        exists|i: nat| i < UNITS && #[trigger] power(i) == x,
{
    let f = |i: int| power(i as nat);
    let from = set_int_range(0, UNITS as int);
    let to = set_int_range(1, P as int);
    let image = from.map(f);
    lemma_int_range(0, UNITS as int);
    lemma_int_range(1, P as int);
    assert(injective_on(f, from)) by {
        assert forall|i: int, j: int|
            from.contains(i) && from.contains(j) && #[trigger] f(i) == #[trigger] f(j) implies i
            == j by {
            if i < j {
                lemma_power_distinct(i as nat, j as nat);
            } else if j < i {
                lemma_power_distinct(j as nat, i as nat);
            }
        }
    }
    lemma_map_size(from, image, f);
    assert forall|y: int| image.contains(y) implies to.contains(y) by {
        let i = choose|i: int| from.contains(i) && f(i) == y;
        lemma_power_inverse(i as nat);
    }
    lemma_subset_equality(image, to);
    assert(image.contains(x));
    let i = choose|i: int| from.contains(i) && f(i) == x;
    assert(power(i as nat) == x);
}

/// The power that is 5.
proof fn lemma_power_five()
    ensures
        power(909007627) == 5,
{
    lemma_power_one();
    lemma_step(1, 1, 7);
    assert(power(3) == 343);
    lemma_step(3, 0, 343);
    assert(power(6) == 117649);
    lemma_step(6, 1, 117649);
    assert(power(13) == 252246292);
    lemma_step(13, 1, 252246292);
    assert(power(27) == 226762748);
    lemma_step(27, 0, 226762748);
    assert(power(54) == 424435441);
    lemma_step(54, 0, 424435441);
    assert(power(108) == 424534408);
    lemma_step(108, 0, 424534408);
    assert(power(216) == 125891516);
    lemma_step(216, 1, 125891516);
    assert(power(433) == 2004444780);
    lemma_step(433, 0, 2004444780);
    assert(power(866) == 1385589541);
    lemma_step(866, 1, 1385589541);
    assert(power(1733) == 107843006);
    lemma_step(1733, 1, 107843006);
    assert(power(3467) == 1781687420);
    lemma_step(3467, 1, 1781687420);
    assert(power(6935) == 266898514);
    lemma_step(6935, 0, 266898514);
    assert(power(13870) == 1065611684);
    lemma_step(13870, 0, 1065611684);
    assert(power(27740) == 158505712);
    lemma_step(27740, 1, 158505712);
    assert(power(55481) == 629736909);
    lemma_step(55481, 0, 629736909);
    assert(power(110962) == 42823730);
    lemma_step(110962, 1, 42823730);
    assert(power(221925) == 1914288873);
    lemma_step(221925, 1, 1914288873);
    assert(power(443851) == 701157178);
    lemma_step(443851, 0, 701157178);
    assert(power(887702) == 1357645628);
    lemma_step(887702, 1, 1357645628);
    assert(power(1775405) == 1173061722);
    lemma_step(1775405, 1, 1173061722);
    assert(power(3550811) == 1853227817);
    lemma_step(3550811, 0, 1853227817);
    assert(power(7101622) == 86589134);
    lemma_step(7101622, 0, 86589134);
    assert(power(14203244) == 966374390);
    lemma_step(14203244, 0, 966374390);
    assert(power(28406488) == 1081707836);
    lemma_step(28406488, 0, 1081707836);
    assert(power(56812976) == 1897735865);
    lemma_step(56812976, 1, 1897735865);
    assert(power(113625953) == 203199724);
    lemma_step(113625953, 0, 203199724);
    assert(power(227251906) == 191306718);
    lemma_step(227251906, 1, 191306718);
    assert(power(454503813) == 550789771);
    lemma_step(454503813, 1, 550789771);
    assert(power(909007627) == 5);
}

/// A number that is not divisible by the modulus has an inverse.
pub proof fn lemma_residue_inverse(x: int) -> (k: int)
    requires
        x % (P as int) != 0,
    ensures
        0 <= k < P,
        x * k % (P as int) == 1,
{
    let p = P as int;
    lemma_mod_bound(x, p);
    lemma_powers_cover(x % p);
    let i = choose|i: nat| i < UNITS && #[trigger] power(i) == x % p;
    lemma_power_inverse(i);
    let k = power((UNITS - i) as nat);
    lemma_power_range((UNITS - i) as nat);
    lemma_mul_mod_noop_left(x, k, p);
    k
}

/// An odd power is no square.
proof fn lemma_odd_power_no_square(f: nat, y: int)
    requires
        f < UNITS,
        f % 2 == 1,
    ensures
        y * y % (P as int) != power(f),
{
    let p = P as int;
    if y * y % p == power(f) {
        lemma_power_inverse(f);
        if y % p == 0 {
            lemma_mul_mod_noop_left(y, y, p);
            assert(0 * y == 0);
            lemma_small_mod(0, P as nat);
        }
        lemma_mod_bound(y, p);
        lemma_powers_cover(y % p);
        let e = choose|e: nat| e < UNITS && #[trigger] power(e) == y % p;
        lemma_power_add(e, e);
        vstd::arithmetic::div_mod::lemma_mul_mod_noop(y, y, p);
        let s = e + e;
        assert(power(s) == power(f));
        lemma_power_units();
        // Reduced below the number of units, the exponent stays even.
        if s < UNITS {
            if s < f {
                lemma_power_distinct(s, f);
            } else if f < s {
                lemma_power_distinct(f, s);
            }
        } else {
            let r = (s - UNITS) as nat;
            lemma_power_add(UNITS as nat, r);
            assert(UNITS as nat + r == s);
            lemma_power_range(r);
            lemma_small_mod(power(r) as nat, P as nat);
            assert(power(r) == power(f));
            if r < f {
                lemma_power_distinct(r, f);
            } else if f < r {
                lemma_power_distinct(f, r);
            }
        }
    }
}

/// Minus one is no square.
pub proof fn lemma_minus_one_no_square(y: int)
    ensures
        y * y % (P as int) != P - 1,
{
    lemma_power_over_2();
    lemma_odd_power_no_square(1073741823, y);
}

/// Five is no square.
pub proof fn lemma_five_no_square(y: int)
    ensures
        y * y % (P as int) != 5,
{
    lemma_power_five();
    lemma_odd_power_no_square(909007627, y);
}

/// A product is divisible by the modulus only where a factor is.
pub proof fn lemma_no_zero_divisors(x: int, y: int)
    requires
        x * y % (P as int) == 0,
    ensures
        x % (P as int) == 0 || y % (P as int) == 0,
{
    let p = P as int;
    let a = x % p;
    lemma_mod_bound(x, p);
    if a != 0 {
        lemma_powers_cover(a);
        let i = choose|i: nat| i < UNITS && #[trigger] power(i) == a;
        lemma_power_inverse(i);
        let b = power((UNITS - i) as nat);
        // b * (a * y) is zero, and (a * b) * y is y.
        lemma_mul_mod_noop_left(x, y, p);
        lemma_mul_mod_noop_right(b, a * y, p);
        assert(b * 0 == 0);
        assert(b * (a * y) == (a * b) * y) by (nonlinear_arith);
        lemma_mul_mod_noop_left(a * b, y, p);
        assert(1 * y == y);
    }
}

/// The only numbers that are their own squares are zero and one.
pub proof fn lemma_bit(v: int)
    requires
        0 <= v < P,
        v * (v - 1) % (P as int) == 0,
    ensures
        v == 0 || v == 1,
{
    lemma_no_zero_divisors(v, v - 1);
    if v > 0 {
        lemma_small_mod(v as nat, P as nat);
        lemma_small_mod((v - 1) as nat, P as nat);
    }
}

} // verus!
