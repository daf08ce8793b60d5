//! The number of elements of the scalar field of the BN256 curve is a prime.
//!
//! Each number below is shown to be prime by a residue whose order is a prime, or a product of two
//! primes, that is large enough; these primes are shown to be so in the same way, down to ones that
//! are small enough for their divisors to be tried.

use vstd::prelude::*;
use vstd::arithmetic::power::{lemma_pow0, pow};
use crate::bn256::fr_modulus;
use crate::primality::{lemma_prime_by_prime_order, lemma_prime_by_residues, lemma_window,
    window_product};
use crate::primes::is_prime;

verus! {

/// 661 is a prime: nothing divides it.
proof fn lemma_661()
    ensures
        is_prime(661),
{
    assert(forall|d: u32| 1 < d < 661 ==> #[trigger] (661u32 % d) != 0) by (bit_vector);
    assert forall|d: int| 1 < d < 661 implies #[trigger] (661int % d) != 0 by {
        assert(661u32 % (d as u32) != 0);
    }
}

/// 853 is a prime: nothing divides it.
proof fn lemma_853()
    ensures
        is_prime(853),
{
    assert(forall|d: u32| 1 < d < 853 ==> #[trigger] (853u32 % d) != 0) by (bit_vector);
    assert forall|d: int| 1 < d < 853 implies #[trigger] (853int % d) != 0 by {
        assert(853u32 % (d as u32) != 0);
    }
}

/// 1637 is a prime: nothing divides it.
proof fn lemma_1637()
    ensures
        is_prime(1637),
{
    assert(forall|d: u32| 1 < d < 1637 ==> #[trigger] (1637u32 % d) != 0) by (bit_vector);
    assert forall|d: int| 1 < d < 1637 implies #[trigger] (1637int % d) != 0 by {
        assert(1637u32 % (d as u32) != 0);
    }
}

/// 93001 is a prime: nothing divides it.
proof fn lemma_93001()
    ensures
        is_prime(93001),
{
    assert(forall|d: u32| 1 < d < 93001 ==> #[trigger] (93001u32 % d) != 0) by (bit_vector);
    assert forall|d: int| 1 < d < 93001 implies #[trigger] (93001int % d) != 0 by {
        assert(93001u32 % (d as u32) != 0);
    }
}

/// One of the two powers that are not one.
proof fn lemma_first_power_modulo_639533339()
    ensures
        pow(569936353, 853) % 639533339 == 248876995,
{
    reveal_with_fuel(window_product, 16);
    lemma_pow0(569936353);
    lemma_window(639533339, 569936353, 0, 3, 1, 576757596);
    lemma_window(639533339, 569936353, 3, 5, 576757596, 48885504);
    lemma_window(639533339, 569936353, 53, 5, 48885504, 248876995);
}

/// The other of them.
proof fn lemma_second_power_modulo_639533339()
    ensures
        pow(569936353, 1637) % 639533339 == 256057581,
{
    reveal_with_fuel(window_product, 16);
    lemma_pow0(569936353);
    lemma_window(639533339, 569936353, 0, 6, 1, 346350812);
    lemma_window(639533339, 569936353, 6, 6, 346350812, 306995837);
    lemma_window(639533339, 569936353, 102, 5, 306995837, 256057581);
}

/// The power that is one, from the first of them on.
proof fn lemma_power_modulo_639533339()
    ensures
        pow(248876995, 1637) % 639533339 == 1,
{
    reveal_with_fuel(window_product, 16);
    lemma_pow0(248876995);
    lemma_window(639533339, 248876995, 0, 6, 1, 448608357);
    lemma_window(639533339, 248876995, 6, 6, 448608357, 181348006);
    lemma_window(639533339, 248876995, 102, 5, 181348006, 1);
}

/// 639533339 is a prime, by a residue whose order is a product of two.
proof fn lemma_639533339()
    ensures
        is_prime(639533339),
{
    lemma_853();
    lemma_1637();
    lemma_first_power_modulo_639533339();
    lemma_second_power_modulo_639533339();
    lemma_power_modulo_639533339();
    lemma_prime_by_residues(
        639533339,
        569936353,
        853, 1637,
        248876995,
        256057581,
        296391531,
        303978671,
    );
}

/// One of the two powers that are not one.
proof fn lemma_first_power_modulo_12048837557()
    ensures
        pow(9314271357, 661) % 12048837557 == 4746995210,
{
    reveal_with_fuel(window_product, 16);
    lemma_pow0(9314271357);
    lemma_window(12048837557, 9314271357, 0, 2, 1, 9168089018);
    lemma_window(12048837557, 9314271357, 2, 9, 9168089018, 5082060440);
    lemma_window(12048837557, 9314271357, 41, 5, 5082060440, 4746995210);
}

/// The other of them.
proof fn lemma_second_power_modulo_12048837557()
    ensures
        pow(9314271357, 93001) % 12048837557 == 8877273464,
{
    reveal_with_fuel(window_product, 16);
    lemma_pow0(9314271357);
    lemma_window(12048837557, 9314271357, 0, 1, 1, 9314271357);
    lemma_window(12048837557, 9314271357, 1, 6, 9314271357, 234144577);
    lemma_window(12048837557, 9314271357, 22, 11, 234144577, 347048005);
    lemma_window(12048837557, 9314271357, 363, 4, 347048005, 11866516789);
    lemma_window(12048837557, 9314271357, 5812, 9, 11866516789, 8877273464);
}

/// The power that is one, from the first of them on.
proof fn lemma_power_modulo_12048837557()
    ensures
        pow(4746995210, 93001) % 12048837557 == 1,
{
    reveal_with_fuel(window_product, 16);
    lemma_pow0(4746995210);
    lemma_window(12048837557, 4746995210, 0, 1, 1, 4746995210);
    lemma_window(12048837557, 4746995210, 1, 6, 4746995210, 6023560310);
    lemma_window(12048837557, 4746995210, 22, 11, 6023560310, 6776742415);
    lemma_window(12048837557, 4746995210, 363, 4, 6776742415, 7776442859);
    lemma_window(12048837557, 4746995210, 5812, 9, 7776442859, 1);
}

/// 12048837557 is a prime, by a residue whose order is a product of two.
proof fn lemma_12048837557()
    ensures
        is_prime(12048837557),
{
    lemma_661();
    lemma_93001();
    lemma_first_power_modulo_12048837557();
    lemma_second_power_modulo_12048837557();
    lemma_power_modulo_12048837557();
    lemma_prime_by_residues(
        12048837557,
        9314271357,
        661, 93001,
        4746995210,
        8877273464,
        10304344409,
        1826643224,
    );
}

/// The power that is one.
proof fn lemma_power_modulo_65865678001877903()
    ensures
        pow(8595199928015311, 639533339) % 65865678001877903 == 1,
{
    reveal_with_fuel(window_product, 16);
    lemma_pow0(8595199928015311);
    lemma_window(65865678001877903, 8595199928015311, 0, 2, 1, 19226070235069677);
    lemma_window(65865678001877903, 8595199928015311, 2, 6, 19226070235069677, 48447415136911303);
    lemma_window(65865678001877903, 8595199928015311, 38, 1, 48447415136911303, 58465146411114843);
    lemma_window(
        65865678001877903, 8595199928015311, 609, 14, 58465146411114843, 55317398354378580,
    );
    lemma_window(
        65865678001877903, 8595199928015311, 9758, 8, 55317398354378580, 51365274646233044,
    );
    lemma_window(
        65865678001877903, 8595199928015311, 156136, 1, 51365274646233044, 34048583907657784,
    );
    lemma_window(
        65865678001877903, 8595199928015311, 2498177, 1, 34048583907657784, 45545585862734603,
    );
    lemma_window(65865678001877903, 8595199928015311, 39970833, 11, 45545585862734603, 1);
}

/// 65865678001877903 is a prime, by a residue whose order is a prime.
proof fn lemma_65865678001877903()
    ensures
        is_prime(65865678001877903),
{
    lemma_639533339();
    lemma_power_modulo_65865678001877903();
    lemma_prime_by_prime_order(
        65865678001877903,
        8595199928015311,
        639533339,
        39033286818209505,
    );
}

/// The power that is one.
proof fn lemma_power_modulo_13818364434197438864469338081()
    ensures
        pow(7935281130018080704632618576, 65865678001877903) % 13818364434197438864469338081
            == 1,
{
    reveal_with_fuel(window_product, 16);
    lemma_pow0(7935281130018080704632618576);
    lemma_window(
        13818364434197438864469338081,
        7935281130018080704632618576,
        0, 14,
        1,
        13033178315209579486208481915,
    );
    lemma_window(
        13818364434197438864469338081,
        7935281130018080704632618576,
        14, 10,
        13033178315209579486208481915,
        13047074007182443388793947416,
    );
    lemma_window(
        13818364434197438864469338081,
        7935281130018080704632618576,
        234, 0,
        13047074007182443388793947416,
        11582084072275290222046741408,
    );
    lemma_window(
        13818364434197438864469338081,
        7935281130018080704632618576,
        3744, 0,
        11582084072275290222046741408,
        10413093752592839881829586129,
    );
    lemma_window(
        13818364434197438864469338081,
        7935281130018080704632618576,
        59904, 7,
        10413093752592839881829586129,
        3995911146589813549241500956,
    );
    lemma_window(
        13818364434197438864469338081,
        7935281130018080704632618576,
        958471, 12,
        3995911146589813549241500956,
        12137052172119357729802499609,
    );
    lemma_window(
        13818364434197438864469338081,
        7935281130018080704632618576,
        15335548, 3,
        12137052172119357729802499609,
        3138503201478530464709256003,
    );
    lemma_window(
        13818364434197438864469338081,
        7935281130018080704632618576,
        245368771, 4,
        3138503201478530464709256003,
        9286782187083334098797683226,
    );
    lemma_window(
        13818364434197438864469338081,
        7935281130018080704632618576,
        3925900340, 3,
        9286782187083334098797683226,
        1878424754868214010089219927,
    );
    lemma_window(
        13818364434197438864469338081,
        7935281130018080704632618576,
        62814405443, 1,
        1878424754868214010089219927,
        10620567016425678254099014230,
    );
    lemma_window(
        13818364434197438864469338081,
        7935281130018080704632618576,
        1005030487089, 3,
        10620567016425678254099014230,
        5715998367833451257024545553,
    );
    lemma_window(
        13818364434197438864469338081,
        7935281130018080704632618576,
        16080487793427, 3,
        5715998367833451257024545553,
        3124199797785987746960266099,
    );
    lemma_window(
        13818364434197438864469338081,
        7935281130018080704632618576,
        257287804694835, 8,
        3124199797785987746960266099,
        7624688656232388209735739235,
    );
    lemma_window(
        13818364434197438864469338081,
        7935281130018080704632618576,
        4116604875117368, 15,
        7624688656232388209735739235,
        1,
    );
}

/// 13818364434197438864469338081 is a prime, by a residue whose order is a prime.
proof fn lemma_13818364434197438864469338081()
    ensures
        is_prime(13818364434197438864469338081),
{
    lemma_65865678001877903();
    lemma_power_modulo_13818364434197438864469338081();
    lemma_prime_by_prime_order(
        13818364434197438864469338081,
        7935281130018080704632618576,
        65865678001877903,
        12281824895882260584345986666,
    );
}

/// The power that is one.
proof fn lemma_power_modulo_5156902474397()
    ensures
        pow(4746712836098, 12048837557) % 5156902474397 == 1,
{
    reveal_with_fuel(window_product, 16);
    lemma_pow0(4746712836098);
    lemma_window(5156902474397, 4746712836098, 0, 2, 1, 4873537632190);
    lemma_window(5156902474397, 4746712836098, 2, 12, 4873537632190, 1372198352576);
    lemma_window(5156902474397, 4746712836098, 44, 14, 1372198352576, 3949638834514);
    lemma_window(5156902474397, 4746712836098, 718, 2, 3949638834514, 4863306363187);
    lemma_window(5156902474397, 4746712836098, 11490, 10, 4863306363187, 1056634934969);
    lemma_window(5156902474397, 4746712836098, 183850, 10, 1056634934969, 2188467409472);
    lemma_window(5156902474397, 4746712836098, 2941610, 11, 2188467409472, 4488210961748);
    lemma_window(5156902474397, 4746712836098, 47065771, 11, 4488210961748, 1513905999439);
    lemma_window(5156902474397, 4746712836098, 753052347, 5, 1513905999439, 1);
}

/// 5156902474397 is a prime, by a residue whose order is a prime.
proof fn lemma_5156902474397()
    ensures
        is_prime(5156902474397),
{
    lemma_12048837557();
    lemma_power_modulo_5156902474397();
    lemma_prime_by_prime_order(
        5156902474397,
        4746712836098,
        12048837557,
        5089286551700,
    );
}

/// The power that is one.
proof fn lemma_power_modulo_1670836401704629()
    ensures
        pow(11046204280772, 5156902474397) % 1670836401704629 == 1,
{
    reveal_with_fuel(window_product, 16);
    lemma_pow0(11046204280772);
    lemma_window(1670836401704629, 11046204280772, 0, 4, 1, 243335622413464);
    lemma_window(1670836401704629, 11046204280772, 4, 11, 243335622413464, 49492090486633);
    lemma_window(1670836401704629, 11046204280772, 75, 0, 49492090486633, 1080461158659793);
    lemma_window(1670836401704629, 11046204280772, 1200, 10, 1080461158659793, 1113683759450937);
    lemma_window(1670836401704629, 11046204280772, 19210, 15, 1113683759450937, 1364249210607750);
    lemma_window(1670836401704629, 11046204280772, 307375, 5, 1364249210607750, 31384141629922);
    lemma_window(1670836401704629, 11046204280772, 4918005, 7, 31384141629922, 566863234295377);
    lemma_window(1670836401704629, 11046204280772, 78688087, 1, 566863234295377, 498053521471380);
    lemma_window(1670836401704629, 11046204280772, 1259009393, 2, 498053521471380, 337174974857465);
    lemma_window(
        1670836401704629, 11046204280772, 20144150290, 9, 337174974857465, 585835722703625,
    );
    lemma_window(1670836401704629, 11046204280772, 322306404649, 13, 585835722703625, 1);
}

/// 1670836401704629 is a prime, by a residue whose order is a prime.
proof fn lemma_1670836401704629()
    ensures
        is_prime(1670836401704629),
{
    lemma_5156902474397();
    lemma_power_modulo_1670836401704629();
    lemma_prime_by_prime_order(
        1670836401704629,
        11046204280772,
        5156902474397,
        735766788910399,
    );
}

/// One of the two powers that are not one.
#[verifier::rlimit(60)]
proof fn lemma_first_power_modulo_fr_modulus()
    ensures
        pow(4067217240286848671452265983065331897323918408910809300406102239489012348584int, 13818364434197438864469338081) % 21888242871839275222246405745257275088548364400416034343698204186575808495617int
            == 15379204794002667769298530452756604474647348591674452342013272253614090326003int,
{
    reveal_with_fuel(window_product, 16);
    lemma_pow0(4067217240286848671452265983065331897323918408910809300406102239489012348584int);
    lemma_window(
        21888242871839275222246405745257275088548364400416034343698204186575808495617int,
        4067217240286848671452265983065331897323918408910809300406102239489012348584int,
        0, 2,
        1,
        6386128151552337324797274583854449461328952692055052099188299042347749289856int,
    );
    lemma_window(
        21888242871839275222246405745257275088548364400416034343698204186575808495617int,
        4067217240286848671452265983065331897323918408910809300406102239489012348584int,
        2, 12,
        6386128151552337324797274583854449461328952692055052099188299042347749289856int,
        15690779842328926225178139205895459096464320036664936154393060137259290834393int,
    );
    lemma_window(
        21888242871839275222246405745257275088548364400416034343698204186575808495617int,
        4067217240286848671452265983065331897323918408910809300406102239489012348584int,
        44, 10,
        15690779842328926225178139205895459096464320036664936154393060137259290834393int,
        8331070091348222178773989349913912596977031367117088757543672891609074423287int,
    );
    lemma_window(
        21888242871839275222246405745257275088548364400416034343698204186575808495617int,
        4067217240286848671452265983065331897323918408910809300406102239489012348584int,
        714, 6,
        8331070091348222178773989349913912596977031367117088757543672891609074423287int,
        10458104519330016722831481621403436636955250855373893914012587466407818324273int,
    );
    lemma_window(
        21888242871839275222246405745257275088548364400416034343698204186575808495617int,
        4067217240286848671452265983065331897323918408910809300406102239489012348584int,
        11430, 4,
        10458104519330016722831481621403436636955250855373893914012587466407818324273int,
        8991047338903701344465700219764455985598459812798333318036451612940826546584int,
    );
    lemma_window(
        21888242871839275222246405745257275088548364400416034343698204186575808495617int,
        4067217240286848671452265983065331897323918408910809300406102239489012348584int,
        182884, 8,
        8991047338903701344465700219764455985598459812798333318036451612940826546584int,
        12095636939347330833732765030336417394965874111430562556378896893108398454119int,
    );
    lemma_window(
        21888242871839275222246405745257275088548364400416034343698204186575808495617int,
        4067217240286848671452265983065331897323918408910809300406102239489012348584int,
        2926152, 7,
        12095636939347330833732765030336417394965874111430562556378896893108398454119int,
        6397909464072761120344264436936460029626824980159215597280672028817779616915int,
    );
    lemma_window(
        21888242871839275222246405745257275088548364400416034343698204186575808495617int,
        4067217240286848671452265983065331897323918408910809300406102239489012348584int,
        46818439, 12,
        6397909464072761120344264436936460029626824980159215597280672028817779616915int,
        10313897862990299760702963901803177025774364084358126394163006552579881462819int,
    );
    lemma_window(
        21888242871839275222246405745257275088548364400416034343698204186575808495617int,
        4067217240286848671452265983065331897323918408910809300406102239489012348584int,
        749095036, 15,
        10313897862990299760702963901803177025774364084358126394163006552579881462819int,
        4360106451514481464721713496424723400798790380683325742569740933810930518178int,
    );
    lemma_window(
        21888242871839275222246405745257275088548364400416034343698204186575808495617int,
        4067217240286848671452265983065331897323918408910809300406102239489012348584int,
        11985520591, 12,
        4360106451514481464721713496424723400798790380683325742569740933810930518178int,
        5942717412744519372674371151679237225322652170292377397675585158938566471780int,
    );
    lemma_window(
        21888242871839275222246405745257275088548364400416034343698204186575808495617int,
        4067217240286848671452265983065331897323918408910809300406102239489012348584int,
        191768329468, 13,
        5942717412744519372674371151679237225322652170292377397675585158938566471780int,
        8418233930617165357431503676748888633218726706654762616692112999670484591013int,
    );
    lemma_window(
        21888242871839275222246405745257275088548364400416034343698204186575808495617int,
        4067217240286848671452265983065331897323918408910809300406102239489012348584int,
        3068293271501, 7,
        8418233930617165357431503676748888633218726706654762616692112999670484591013int,
        9433521811091422581917263520702365715911069060317711582080456248494772571446int,
    );
    lemma_window(
        21888242871839275222246405745257275088548364400416034343698204186575808495617int,
        4067217240286848671452265983065331897323918408910809300406102239489012348584int,
        49092692344023, 9,
        9433521811091422581917263520702365715911069060317711582080456248494772571446int,
        15822093576658666881427783006931272225564788928357168789168489701542569875099int,
    );
    lemma_window(
        21888242871839275222246405745257275088548364400416034343698204186575808495617int,
        4067217240286848671452265983065331897323918408910809300406102239489012348584int,
        785483077504377, 5,
        15822093576658666881427783006931272225564788928357168789168489701542569875099int,
        1315841031531098173455288590474915687435097755906924751602998016417667498287int,
    );
    lemma_window(
        21888242871839275222246405745257275088548364400416034343698204186575808495617int,
        4067217240286848671452265983065331897323918408910809300406102239489012348584int,
        12567729240070037, 14,
        1315841031531098173455288590474915687435097755906924751602998016417667498287int,
        2553140948483930812412285981849370959439675767789630126167664254901483265300int,
    );
    lemma_window(
        21888242871839275222246405745257275088548364400416034343698204186575808495617int,
        4067217240286848671452265983065331897323918408910809300406102239489012348584int,
        201083667841120606, 8,
        2553140948483930812412285981849370959439675767789630126167664254901483265300int,
        18844765288437987799138213223672211085117726746507232125190001470484912400462int,
    );
    lemma_window(
        21888242871839275222246405745257275088548364400416034343698204186575808495617int,
        4067217240286848671452265983065331897323918408910809300406102239489012348584int,
        3217338685457929704, 7,
        18844765288437987799138213223672211085117726746507232125190001470484912400462int,
        1763832830497479334436111597000920668523750036536595945067692152000206613291int,
    );
    lemma_window(
        21888242871839275222246405745257275088548364400416034343698204186575808495617int,
        4067217240286848671452265983065331897323918408910809300406102239489012348584int,
        51477418967326875271, 2,
        1763832830497479334436111597000920668523750036536595945067692152000206613291int,
        10639978108994546607145882244949613283667110026118833070157686786853029213187int,
    );
    lemma_window(
        21888242871839275222246405745257275088548364400416034343698204186575808495617int,
        4067217240286848671452265983065331897323918408910809300406102239489012348584int,
        823638703477230004338, 9,
        10639978108994546607145882244949613283667110026118833070157686786853029213187int,
        6519667857248721620883404089629190453555380526572180117778616129766941648535int,
    );
    lemma_window(
        21888242871839275222246405745257275088548364400416034343698204186575808495617int,
        4067217240286848671452265983065331897323918408910809300406102239489012348584int,
        13178219255635680069417, 5,
        6519667857248721620883404089629190453555380526572180117778616129766941648535int,
        6240833133448105338207581245949004484552400747577623356912084461759335556916int,
    );
    lemma_window(
        21888242871839275222246405745257275088548364400416034343698204186575808495617int,
        4067217240286848671452265983065331897323918408910809300406102239489012348584int,
        210851508090170881110677, 2,
        6240833133448105338207581245949004484552400747577623356912084461759335556916int,
        9975287918602860911580010553136500836149672040675543073036316873641214829324int,
    );
    lemma_window(
        21888242871839275222246405745257275088548364400416034343698204186575808495617int,
        4067217240286848671452265983065331897323918408910809300406102239489012348584int,
        3373624129442734097770834, 7,
        9975287918602860911580010553136500836149672040675543073036316873641214829324int,
        5734933231541450750267406738314736704308586995611790329229868807038284262457int,
    );
    lemma_window(
        21888242871839275222246405745257275088548364400416034343698204186575808495617int,
        4067217240286848671452265983065331897323918408910809300406102239489012348584int,
        53977986071083745564333351, 14,
        5734933231541450750267406738314736704308586995611790329229868807038284262457int,
        10843790727256262470749371154007731033265095714211366053529959999110654158998int,
    );
    lemma_window(
        21888242871839275222246405745257275088548364400416034343698204186575808495617int,
        4067217240286848671452265983065331897323918408910809300406102239489012348584int,
        863647777137339929029333630, 1,
        10843790727256262470749371154007731033265095714211366053529959999110654158998int,
        15379204794002667769298530452756604474647348591674452342013272253614090326003int,
    );
}

/// The other of them.
#[verifier::rlimit(60)]
proof fn lemma_second_power_modulo_fr_modulus()
    ensures
        pow(4067217240286848671452265983065331897323918408910809300406102239489012348584int, 1670836401704629) % 21888242871839275222246405745257275088548364400416034343698204186575808495617int
            == 18810536960267738281623319138564098156538132287104634306360290224932305588168int,
{
    reveal_with_fuel(window_product, 16);
    lemma_pow0(4067217240286848671452265983065331897323918408910809300406102239489012348584int);
    lemma_window(
        21888242871839275222246405745257275088548364400416034343698204186575808495617int,
        4067217240286848671452265983065331897323918408910809300406102239489012348584int,
        0, 5,
        1,
        13238749333881657106705305701460976550231994495162614680963707438086684607956int,
    );
    lemma_window(
        21888242871839275222246405745257275088548364400416034343698204186575808495617int,
        4067217240286848671452265983065331897323918408910809300406102239489012348584int,
        5, 14,
        13238749333881657106705305701460976550231994495162614680963707438086684607956int,
        15521610032794111276804907384116859780422607459397412237403815305009698800648int,
    );
    lemma_window(
        21888242871839275222246405745257275088548364400416034343698204186575808495617int,
        4067217240286848671452265983065331897323918408910809300406102239489012348584int,
        94, 15,
        15521610032794111276804907384116859780422607459397412237403815305009698800648int,
        5305523791343338888340056854512443001811805487901587631041101707290939404956int,
    );
    lemma_window(
        21888242871839275222246405745257275088548364400416034343698204186575808495617int,
        4067217240286848671452265983065331897323918408910809300406102239489012348584int,
        1519, 9,
        5305523791343338888340056854512443001811805487901587631041101707290939404956int,
        9518441876853481861736351359352991275527267624348828572263517916303564912401int,
    );
    lemma_window(
        21888242871839275222246405745257275088548364400416034343698204186575808495617int,
        4067217240286848671452265983065331897323918408910809300406102239489012348584int,
        24313, 13,
        9518441876853481861736351359352991275527267624348828572263517916303564912401int,
        17875055090506025240356370126492227312793770017793380228434757736587311268860int,
    );
    lemma_window(
        21888242871839275222246405745257275088548364400416034343698204186575808495617int,
        4067217240286848671452265983065331897323918408910809300406102239489012348584int,
        389021, 14,
        17875055090506025240356370126492227312793770017793380228434757736587311268860int,
        8679339286862363761504163591784019976629085217846334212063598421905203773607int,
    );
    lemma_window(
        21888242871839275222246405745257275088548364400416034343698204186575808495617int,
        4067217240286848671452265983065331897323918408910809300406102239489012348584int,
        6224350, 10,
        8679339286862363761504163591784019976629085217846334212063598421905203773607int,
        8629976415322310111913236549513323322989871275047921905490991820742268879913int,
    );
    lemma_window(
        21888242871839275222246405745257275088548364400416034343698204186575808495617int,
        4067217240286848671452265983065331897323918408910809300406102239489012348584int,
        99589610, 3,
        8629976415322310111913236549513323322989871275047921905490991820742268879913int,
        13768756505859399311183560326960825250207199533332247115294768620812113250806int,
    );
    lemma_window(
        21888242871839275222246405745257275088548364400416034343698204186575808495617int,
        4067217240286848671452265983065331897323918408910809300406102239489012348584int,
        1593433763, 3,
        13768756505859399311183560326960825250207199533332247115294768620812113250806int,
        11420482190816822151268568602146673094208033372034080010015365028613068075075int,
    );
    lemma_window(
        21888242871839275222246405745257275088548364400416034343698204186575808495617int,
        4067217240286848671452265983065331897323918408910809300406102239489012348584int,
        25494940211, 8,
        11420482190816822151268568602146673094208033372034080010015365028613068075075int,
        1464631871477221700669242018938431796734818078948907931300166732432337750916int,
    );
    lemma_window(
        21888242871839275222246405745257275088548364400416034343698204186575808495617int,
        4067217240286848671452265983065331897323918408910809300406102239489012348584int,
        407919043384, 14,
        1464631871477221700669242018938431796734818078948907931300166732432337750916int,
        17392445159704734836218738035517339578644351879633222452304609351608971145196int,
    );
    lemma_window(
        21888242871839275222246405745257275088548364400416034343698204186575808495617int,
        4067217240286848671452265983065331897323918408910809300406102239489012348584int,
        6526704694158, 11,
        17392445159704734836218738035517339578644351879633222452304609351608971145196int,
        4035495348016154172729634820634689062113386583787331187457720384514718685134int,
    );
    lemma_window(
        21888242871839275222246405745257275088548364400416034343698204186575808495617int,
        4067217240286848671452265983065331897323918408910809300406102239489012348584int,
        104427275106539, 5,
        4035495348016154172729634820634689062113386583787331187457720384514718685134int,
        18810536960267738281623319138564098156538132287104634306360290224932305588168int,
    );
}

/// The power that is one, from the first of them on.
#[verifier::rlimit(60)]
proof fn lemma_power_modulo_fr_modulus()
    ensures
        pow(15379204794002667769298530452756604474647348591674452342013272253614090326003int, 1670836401704629) % 21888242871839275222246405745257275088548364400416034343698204186575808495617int
            == 1,
{
    reveal_with_fuel(window_product, 16);
    lemma_pow0(15379204794002667769298530452756604474647348591674452342013272253614090326003int);
    lemma_window(
        21888242871839275222246405745257275088548364400416034343698204186575808495617int,
        15379204794002667769298530452756604474647348591674452342013272253614090326003int,
        0, 5,
        1,
        4260654729730660216535389619375238216553402430020728752504375226320501554837int,
    );
    lemma_window(
        21888242871839275222246405745257275088548364400416034343698204186575808495617int,
        15379204794002667769298530452756604474647348591674452342013272253614090326003int,
        5, 14,
        4260654729730660216535389619375238216553402430020728752504375226320501554837int,
        3228530317528596532115753829283615338476883891407954109386818801729966713050int,
    );
    lemma_window(
        21888242871839275222246405745257275088548364400416034343698204186575808495617int,
        15379204794002667769298530452756604474647348591674452342013272253614090326003int,
        94, 15,
        3228530317528596532115753829283615338476883891407954109386818801729966713050int,
        15444520202297557232880096412305440400925607232651555968356803917557952013706int,
    );
    lemma_window(
        21888242871839275222246405745257275088548364400416034343698204186575808495617int,
        15379204794002667769298530452756604474647348591674452342013272253614090326003int,
        1519, 9,
        15444520202297557232880096412305440400925607232651555968356803917557952013706int,
        12997965327827198381662574256267640193201185907944930759570858280593083517658int,
    );
    lemma_window(
        21888242871839275222246405745257275088548364400416034343698204186575808495617int,
        15379204794002667769298530452756604474647348591674452342013272253614090326003int,
        24313, 13,
        12997965327827198381662574256267640193201185907944930759570858280593083517658int,
        3053501093978968543287168992464908609308717022560862197316863005964349942694int,
    );
    lemma_window(
        21888242871839275222246405745257275088548364400416034343698204186575808495617int,
        15379204794002667769298530452756604474647348591674452342013272253614090326003int,
        389021, 14,
        3053501093978968543287168992464908609308717022560862197316863005964349942694int,
        14697913870320701908178088657548268116533272751121407663067227238882460087513int,
    );
    lemma_window(
        21888242871839275222246405745257275088548364400416034343698204186575808495617int,
        15379204794002667769298530452756604474647348591674452342013272253614090326003int,
        6224350, 10,
        14697913870320701908178088657548268116533272751121407663067227238882460087513int,
        2955512403943696847423123723236622717040173816240042112877337728667321167804int,
    );
    lemma_window(
        21888242871839275222246405745257275088548364400416034343698204186575808495617int,
        15379204794002667769298530452756604474647348591674452342013272253614090326003int,
        99589610, 3,
        2955512403943696847423123723236622717040173816240042112877337728667321167804int,
        2424727628898210220023312369396108577648812531441836735654182370684160382025int,
    );
    lemma_window(
        21888242871839275222246405745257275088548364400416034343698204186575808495617int,
        15379204794002667769298530452756604474647348591674452342013272253614090326003int,
        1593433763, 3,
        2424727628898210220023312369396108577648812531441836735654182370684160382025int,
        1283961948877319834595797847421587932900082439994332288281233496288834814677int,
    );
    lemma_window(
        21888242871839275222246405745257275088548364400416034343698204186575808495617int,
        15379204794002667769298530452756604474647348591674452342013272253614090326003int,
        25494940211, 8,
        1283961948877319834595797847421587932900082439994332288281233496288834814677int,
        13238021060017281061049341521316163530322714476552492959801227200555855190750int,
    );
    lemma_window(
        21888242871839275222246405745257275088548364400416034343698204186575808495617int,
        15379204794002667769298530452756604474647348591674452342013272253614090326003int,
        407919043384, 14,
        13238021060017281061049341521316163530322714476552492959801227200555855190750int,
        9131265340931556458562057635742570076237163207900597002893029626728645091008int,
    );
    lemma_window(
        21888242871839275222246405745257275088548364400416034343698204186575808495617int,
        15379204794002667769298530452756604474647348591674452342013272253614090326003int,
        6526704694158, 11,
        9131265340931556458562057635742570076237163207900597002893029626728645091008int,
        536273062225463174020747041170579101968810656245233552079387940789386982850int,
    );
    lemma_window(
        21888242871839275222246405745257275088548364400416034343698204186575808495617int,
        15379204794002667769298530452756604474647348591674452342013272253614090326003int,
        104427275106539, 5,
        536273062225463174020747041170579101968810656245233552079387940789386982850int,
        1,
    );
}

/// The number of elements of the field is a prime.
pub proof fn lemma_fr_modulus_is_prime()
    ensures
        is_prime(fr_modulus()),
{
    lemma_13818364434197438864469338081();
    lemma_1670836401704629();
    lemma_first_power_modulo_fr_modulus();
    lemma_second_power_modulo_fr_modulus();
    lemma_power_modulo_fr_modulus();
    lemma_prime_by_residues(
        21888242871839275222246405745257275088548364400416034343698204186575808495617int,
        4067217240286848671452265983065331897323918408910809300406102239489012348584int,
        13818364434197438864469338081, 1670836401704629,
        15379204794002667769298530452756604474647348591674452342013272253614090326003int,
        18810536960267738281623319138564098156538132287104634306360290224932305588168int,
        86052601511993865195709936845511121156384965108811623497653747272590813794int,
        18830771696733986827343121108258373716716634563029220880262390084180817631389int,
    );
}

} // verus!
