//! The moduli of the Pallas and Vesta scalars are prime.
//!
//! A number is shown to be prime by elements of large prime orders modulo it: every prime divisor
//! then leaves the remainder one when divided by these orders and is above the root. The orders are
//! shown to be prime in the same way, and the smallest ones by trying all divisors.
//!
//! Powers are computed one bit of the exponent after the other, with a row for each bit: the
//! modulus, the base, an exponent, the power, and the power for the exponent with the next bit.
use super::{pallas, vesta};
use crate::primes;
#[allow(unused_imports)]
use vstd::arithmetic::power::*;
use vstd::prelude::*;

verus! {

/// `115603` has no divisor.
proof fn lemma_prime_115603()
    ensures
        primes::is_prime(115603),
{
    let n = 115603int;
    if !primes::is_prime(n) {
        let d = primes::lemma_small_divisor(n, 340);
        let a = d as u64;
        let b = (n / d) as u64;
        assert(a * b != 115603u64) by (bit_vector)
            requires
                1 < a <= 340,
                1 < b < 115603,
        ;
    }
}

/// `1197907` has no divisor.
proof fn lemma_prime_1197907()
    ensures
        primes::is_prime(1197907),
{
    let n = 1197907int;
    if !primes::is_prime(n) {
        let d = primes::lemma_small_divisor(n, 1094);
        let a = d as u64;
        let b = (n / d) as u64;
        assert(a * b != 1197907u64) by (bit_vector)
            requires
                1 < a <= 1094,
                1 < b < 1197907,
        ;
    }
}

/// `41655379` has no divisor.
proof fn lemma_prime_41655379()
    ensures
        primes::is_prime(41655379),
{
    let n = 41655379int;
    if !primes::is_prime(n) {
        let d = primes::lemma_small_divisor(n, 6454);
        let a = d as u64;
        let b = (n / d) as u64;
        assert(a * b != 41655379u64) by (bit_vector)
            requires
                1 < a <= 6454,
                1 < b < 41655379,
        ;
    }
}

/// `294793` has no divisor.
proof fn lemma_prime_294793()
    ensures
        primes::is_prime(294793),
{
    let n = 294793int;
    if !primes::is_prime(n) {
        let d = primes::lemma_small_divisor(n, 542);
        let a = d as u64;
        let b = (n / d) as u64;
        assert(a * b != 294793u64) by (bit_vector)
            requires
                1 < a <= 542,
                1 < b < 294793,
        ;
    }
}

/// `4229279` has no divisor.
proof fn lemma_prime_4229279()
    ensures
        primes::is_prime(4229279),
{
    let n = 4229279int;
    if !primes::is_prime(n) {
        let d = primes::lemma_small_divisor(n, 2056);
        let a = d as u64;
        let b = (n / d) as u64;
        assert(a * b != 4229279u64) by (bit_vector)
            requires
                1 < a <= 2056,
                1 < b < 4229279,
        ;
    }
}

/// `399082391` has no divisor.
proof fn lemma_prime_399082391()
    ensures
        primes::is_prime(399082391),
{
    let n = 399082391int;
    if !primes::is_prime(n) {
        let d = primes::lemma_small_divisor(n, 19977);
        let a = d as u64;
        let b = (n / d) as u64;
        assert(a * b != 399082391u64) by (bit_vector)
            requires
                1 < a <= 19977,
                1 < b < 399082391,
        ;
    }
}

/// An element of order `41655379` modulo `22160661629`.
proof fn lemma_order_41655379_22160661629()
    ensures
        primes::has_order(22160661629int, 17216609584, 41655379, 16729823236),
{
    let n = 22160661629int;
    let y = 17216609584int;
    lemma_pow1(y);
    primes::lemma_square(n, y, 1, 17216609584, 4839896328);
    primes::lemma_square(n, y, 2, 4839896328, 16013539441);
    primes::lemma_step(n, y, 4, 16013539441, 5412333477);
    primes::lemma_step(n, y, 9, 5412333477, 11639443859);
    primes::lemma_step(n, y, 19, 11639443859, 3574453318);
    primes::lemma_step(n, y, 39, 3574453318, 14040414779);
    primes::lemma_square(n, y, 79, 14040414779, 6146651730);
    primes::lemma_step(n, y, 158, 6146651730, 21484236385);
    primes::lemma_step(n, y, 317, 21484236385, 8133869033);
    primes::lemma_step(n, y, 635, 8133869033, 8364256489);
    primes::lemma_square(n, y, 1271, 8364256489, 11629639571);
    primes::lemma_square(n, y, 2542, 11629639571, 3831067789);
    primes::lemma_step(n, y, 5084, 3831067789, 15320905972);
    primes::lemma_step(n, y, 10169, 15320905972, 13029146780);
    primes::lemma_step(n, y, 20339, 13029146780, 8013095233);
    primes::lemma_square(n, y, 40679, 8013095233, 15557659012);
    primes::lemma_square(n, y, 81358, 15557659012, 20907860147);
    primes::lemma_square(n, y, 162716, 20907860147, 904203573);
    primes::lemma_step(n, y, 325432, 904203573, 5102280714);
    primes::lemma_square(n, y, 650865, 5102280714, 11416364535);
    primes::lemma_step(n, y, 1301730, 11416364535, 20758127416);
    primes::lemma_square(n, y, 2603461, 20758127416, 8806529869);
    primes::lemma_square(n, y, 5206922, 8806529869, 21612913740);
    primes::lemma_step(n, y, 10413844, 21612913740, 15722540443);
    primes::lemma_step(n, y, 20827689, 15722540443, 1);
}

/// `22160661629` has no divisor.
proof fn lemma_prime_22160661629()
    ensures
        primes::is_prime(22160661629int),
{
    let n = 22160661629int;
    lemma_prime_41655379();
    lemma_order_41655379_22160661629();
    assert forall|q: int| primes::is_prime(q) && #[trigger] (n % q) == 0 implies (q - 1)
        % 41655379 == 0 by {
        primes::lemma_order_of_divisor(n, 17216609584, 41655379, 16729823236, q);
    }
    primes::lemma_pocklington(n, 41655379);
}

/// An element of order `115603` modulo `8999194758858563409123804352480028797519453`.
proof fn lemma_order_115603_8999194758858563409123804352480028797519453()
    ensures
        primes::has_order(
            8999194758858563409123804352480028797519453int,
            5381518379154031554051565032301077920065244int,
            115603,
            4892921594321714078641524947629541624150040int,
        ),
{
    let n = 8999194758858563409123804352480028797519453int;
    let y = 5381518379154031554051565032301077920065244int;
    lemma_pow1(y);
    primes::lemma_step(n, y, 1, 5381518379154031554051565032301077920065244int, 3282325209546705140721157153343480111840990int);
    primes::lemma_step(n, y, 3, 3282325209546705140721157153343480111840990int, 1812239787988639240283098190961457002889866int);
    primes::lemma_square(n, y, 7, 1812239787988639240283098190961457002889866int, 522915466244230954266771121297944302952112int);
    primes::lemma_square(n, y, 14, 522915466244230954266771121297944302952112int, 4901499115058914603668262799085359299554555int);
    primes::lemma_square(n, y, 28, 4901499115058914603668262799085359299554555int, 3451017363870511106589325335762295561899150int);
    primes::lemma_square(n, y, 56, 3451017363870511106589325335762295561899150int, 5189575543929330597052081335937371980517137int);
    primes::lemma_step(n, y, 112, 5189575543929330597052081335937371980517137int, 4209014261515518674288377348675615426661121int);
    primes::lemma_step(n, y, 225, 4209014261515518674288377348675615426661121int, 6213285464932127289454887029293833627168983int);
    primes::lemma_step(n, y, 451, 6213285464932127289454887029293833627168983int, 1196025790168969527350806862273163822474474int);
    primes::lemma_square(n, y, 903, 1196025790168969527350806862273163822474474int, 8261013416743036892567587950852913478807902int);
    primes::lemma_square(n, y, 1806, 8261013416743036892567587950852913478807902int, 1436613990777434325558465706636724605287719int);
    primes::lemma_step(n, y, 3612, 1436613990777434325558465706636724605287719int, 596646074497836820328312803027821730313582int);
    primes::lemma_square(n, y, 7225, 596646074497836820328312803027821730313582int, 8977499576920484880027736793021636363049817int);
    primes::lemma_square(n, y, 14450, 8977499576920484880027736793021636363049817int, 7219364648576535380794573247511408629365080int);
    primes::lemma_step(n, y, 28900, 7219364648576535380794573247511408629365080int, 6240407921154808154240052522879239991594843int);
    primes::lemma_step(n, y, 57801, 6240407921154808154240052522879239991594843int, 1);
}

/// An element of order `1197907` modulo `8999194758858563409123804352480028797519453`.
proof fn lemma_order_1197907_8999194758858563409123804352480028797519453()
    ensures
        primes::has_order(
            8999194758858563409123804352480028797519453int,
            3201522544944086055076342566780970077300245int,
            1197907,
            7983359451513312401852009040794288845333907int,
        ),
{
    let n = 8999194758858563409123804352480028797519453int;
    let y = 3201522544944086055076342566780970077300245int;
    lemma_pow1(y);
    primes::lemma_square(n, y, 1, 3201522544944086055076342566780970077300245int, 2819889428135996621887804127839304081418106int);
    primes::lemma_square(n, y, 2, 2819889428135996621887804127839304081418106int, 6877657036068991997445185313975798110927038int);
    primes::lemma_step(n, y, 4, 6877657036068991997445185313975798110927038int, 2245914984322772466062233220585838833017828int);
    primes::lemma_square(n, y, 9, 2245914984322772466062233220585838833017828int, 3539703594462045113635901861861189608832069int);
    primes::lemma_square(n, y, 18, 3539703594462045113635901861861189608832069int, 4605327792892704871648318299361135383414427int);
    primes::lemma_step(n, y, 36, 4605327792892704871648318299361135383414427int, 5380797288407261792049898073299381650301083int);
    primes::lemma_square(n, y, 73, 5380797288407261792049898073299381650301083int, 291238245188974348764171192182866433153149int);
    primes::lemma_square(n, y, 146, 291238245188974348764171192182866433153149int, 4771213929006871513320569156374021243652845int);
    primes::lemma_square(n, y, 292, 4771213929006871513320569156374021243652845int, 3524301185883361488123280743335900036572960int);
    primes::lemma_step(n, y, 584, 3524301185883361488123280743335900036572960int, 8939339588634212790904344062874383183396632int);
    primes::lemma_step(n, y, 1169, 8939339588634212790904344062874383183396632int, 1420591328270608664470357962095283390720513int);
    primes::lemma_step(n, y, 2339, 1420591328270608664470357962095283390720513int, 8860470248654477186919344449654569126701716int);
    primes::lemma_square(n, y, 4679, 8860470248654477186919344449654569126701716int, 6127409153772921736669973318584840620236238int);
    primes::lemma_step(n, y, 9358, 6127409153772921736669973318584840620236238int, 3147801894218436798033868093805402788340396int);
    primes::lemma_square(n, y, 18717, 3147801894218436798033868093805402788340396int, 298948867161885664102356643264653563635469int);
    primes::lemma_step(n, y, 37434, 298948867161885664102356643264653563635469int, 790078616001281633541041775741147786763739int);
    primes::lemma_square(n, y, 74869, 790078616001281633541041775741147786763739int, 7745344271596836980899648240062288815240508int);
    primes::lemma_square(n, y, 149738, 7745344271596836980899648240062288815240508int, 3153118776552015168148112632233632700887596int);
    primes::lemma_step(n, y, 299476, 3153118776552015168148112632233632700887596int, 607321776939850557719989209323452678291467int);
    primes::lemma_step(n, y, 598953, 607321776939850557719989209323452678291467int, 1);
}

/// An element of order `22160661629` modulo `8999194758858563409123804352480028797519453`.
proof fn lemma_order_22160661629_8999194758858563409123804352480028797519453()
    ensures
        primes::has_order(
            8999194758858563409123804352480028797519453int,
            7468371576130240648439236849311461678235198int,
            22160661629,
            6901950476907449788516068320711881523971993int,
        ),
{
    let n = 8999194758858563409123804352480028797519453int;
    let y = 7468371576130240648439236849311461678235198int;
    lemma_pow1(y);
    primes::lemma_square(n, y, 1, 7468371576130240648439236849311461678235198int, 7758953267728191246037418402219727062377509int);
    primes::lemma_step(n, y, 2, 7758953267728191246037418402219727062377509int, 7423495550091160529870502799538691985731938int);
    primes::lemma_square(n, y, 5, 7423495550091160529870502799538691985731938int, 849059105687746995393184250916035650738259int);
    primes::lemma_square(n, y, 10, 849059105687746995393184250916035650738259int, 5004794858081852401442340386106797666455713int);
    primes::lemma_step(n, y, 20, 5004794858081852401442340386106797666455713int, 4131586886946992131122118451463261957620838int);
    primes::lemma_square(n, y, 41, 4131586886946992131122118451463261957620838int, 5870177298206488672453844339945014678815095int);
    primes::lemma_step(n, y, 82, 5870177298206488672453844339945014678815095int, 230499869981558459218973355898487250765764int);
    primes::lemma_square(n, y, 165, 230499869981558459218973355898487250765764int, 8052259421016979913027170541643275980977640int);
    primes::lemma_square(n, y, 330, 8052259421016979913027170541643275980977640int, 4807651470617424104721517815915570168856015int);
    primes::lemma_square(n, y, 660, 4807651470617424104721517815915570168856015int, 1570735926408115650171434904518312681341306int);
    primes::lemma_step(n, y, 1320, 1570735926408115650171434904518312681341306int, 7845862252626321317550357017391504590627152int);
    primes::lemma_step(n, y, 2641, 7845862252626321317550357017391504590627152int, 4403068127395055419317069518138930083940019int);
    primes::lemma_step(n, y, 5283, 4403068127395055419317069518138930083940019int, 3708700571616351304008963792724249423461127int);
    primes::lemma_square(n, y, 10567, 3708700571616351304008963792724249423461127int, 7011032846320960961465080143666449529974711int);
    primes::lemma_square(n, y, 21134, 7011032846320960961465080143666449529974711int, 3911507971131125748069075613600366804522695int);
    primes::lemma_square(n, y, 42268, 3911507971131125748069075613600366804522695int, 3659091353513340584866551821043678959595891int);
    primes::lemma_square(n, y, 84536, 3659091353513340584866551821043678959595891int, 7677756448197829380211016237649379715948403int);
    primes::lemma_square(n, y, 169072, 7677756448197829380211016237649379715948403int, 2231571155144037512813830325906580704870759int);
    primes::lemma_step(n, y, 338144, 2231571155144037512813830325906580704870759int, 8490544147979657160621745656002331675979903int);
    primes::lemma_step(n, y, 676289, 8490544147979657160621745656002331675979903int, 895014917936500844510802744935467713166045int);
    primes::lemma_square(n, y, 1352579, 895014917936500844510802744935467713166045int, 5073120735832243081267729179907418156708383int);
    primes::lemma_step(n, y, 2705158, 5073120735832243081267729179907418156708383int, 8005562289797212772215563891161056475461062int);
    primes::lemma_step(n, y, 5410317, 8005562289797212772215563891161056475461062int, 8399708449950097274112636899226332495220441int);
    primes::lemma_step(n, y, 10820635, 8399708449950097274112636899226332495220441int, 6288385245288805958066280271992789855712661int);
    primes::lemma_square(n, y, 21641271, 6288385245288805958066280271992789855712661int, 8158317355154654460972934804934312840191808int);
    primes::lemma_square(n, y, 43282542, 8158317355154654460972934804934312840191808int, 483732233615073395782932301841317028284422int);
    primes::lemma_square(n, y, 86565084, 483732233615073395782932301841317028284422int, 5777427607893951841400129489143455363455567int);
    primes::lemma_step(n, y, 173130168, 5777427607893951841400129489143455363455567int, 667994768046151627015710822566492561647411int);
    primes::lemma_step(n, y, 346260337, 667994768046151627015710822566492561647411int, 7261027966949560582166172994331082429260971int);
    primes::lemma_step(n, y, 692520675, 7261027966949560582166172994331082429260971int, 8265113391869398004418117262504171084340210int);
    primes::lemma_step(n, y, 1385041351, 8265113391869398004418117262504171084340210int, 5175557729490892673610772794772614586280482int);
    primes::lemma_step(n, y, 2770082703, 5175557729490892673610772794772614586280482int, 8936648008969041949390674277517017760291667int);
    primes::lemma_square(n, y, 5540165407, 8936648008969041949390674277517017760291667int, 583020610512092826000400256844907509074910int);
    primes::lemma_step(n, y, 11080330814, 583020610512092826000400256844907509074910int, 1);
}

/// `8999194758858563409123804352480028797519453` has no divisor.
proof fn lemma_prime_8999194758858563409123804352480028797519453()
    ensures
        primes::is_prime(8999194758858563409123804352480028797519453int),
{
    let n = 8999194758858563409123804352480028797519453int;
    lemma_prime_115603();
    lemma_order_115603_8999194758858563409123804352480028797519453();
    lemma_prime_1197907();
    lemma_order_1197907_8999194758858563409123804352480028797519453();
    lemma_prime_22160661629();
    lemma_order_22160661629_8999194758858563409123804352480028797519453();
    assert forall|q: int| primes::is_prime(q) && #[trigger] (n % q) == 0 implies (q - 1)
        % 3068844830600284178309int == 0 by {
        primes::lemma_order_of_divisor(
            n,
            5381518379154031554051565032301077920065244int,
            115603,
            4892921594321714078641524947629541624150040int,
            q,
        );
        primes::lemma_order_of_divisor(
            n,
            3201522544944086055076342566780970077300245int,
            1197907,
            7983359451513312401852009040794288845333907int,
            q,
        );
        primes::lemma_multiple_of_both(q - 1, 115603, 1197907);
        primes::lemma_order_of_divisor(
            n,
            7468371576130240648439236849311461678235198int,
            22160661629,
            6901950476907449788516068320711881523971993int,
            q,
        );
        primes::lemma_multiple_of_both(q - 1, 138481642921, 22160661629);
    }
    primes::lemma_pocklington(n, 3068844830600284178309int);
}

/// An element of order `294793` modulo `10427374428728808478656897599072717`.
proof fn lemma_order_294793_10427374428728808478656897599072717()
    ensures
        primes::has_order(
            10427374428728808478656897599072717int,
            141030142704377787764626290196987int,
            294793,
            3840105716387621521342224917013011int,
        ),
{
    let n = 10427374428728808478656897599072717int;
    let y = 141030142704377787764626290196987int;
    lemma_pow1(y);
    primes::lemma_square(n, y, 1, 141030142704377787764626290196987int, 8302676311456556210398457632350943int);
    primes::lemma_square(n, y, 2, 8302676311456556210398457632350943int, 4425188972103486756468865359239184int);
    primes::lemma_square(n, y, 4, 4425188972103486756468865359239184int, 8358875859064876563235447078142714int);
    primes::lemma_step(n, y, 8, 8358875859064876563235447078142714int, 7622888880377998834720601394591740int);
    primes::lemma_step(n, y, 17, 7622888880377998834720601394591740int, 5484919847915349576456127697836475int);
    primes::lemma_step(n, y, 35, 5484919847915349576456127697836475int, 4566978717885817377468359433338906int);
    primes::lemma_step(n, y, 71, 4566978717885817377468359433338906int, 4176637898865433867876630540217177int);
    primes::lemma_step(n, y, 143, 4176637898865433867876630540217177int, 7335654538758573993393034367352405int);
    primes::lemma_step(n, y, 287, 7335654538758573993393034367352405int, 1638244895009363984781001812324209int);
    primes::lemma_step(n, y, 575, 1638244895009363984781001812324209int, 5211234971960121112419289334721370int);
    primes::lemma_step(n, y, 1151, 5211234971960121112419289334721370int, 6783928903955625305630027748498256int);
    primes::lemma_square(n, y, 2303, 6783928903955625305630027748498256int, 5306306967239397115737361674262798int);
    primes::lemma_square(n, y, 4606, 5306306967239397115737361674262798int, 6889274200002158860583621570811423int);
    primes::lemma_square(n, y, 9212, 6889274200002158860583621570811423int, 4598309067940204101500571679126251int);
    primes::lemma_step(n, y, 18424, 4598309067940204101500571679126251int, 9517244097068417200532529910048059int);
    primes::lemma_square(n, y, 36849, 9517244097068417200532529910048059int, 139091269358792447811110018771280int);
    primes::lemma_square(n, y, 73698, 139091269358792447811110018771280int, 2724729242931674004805600836069563int);
    primes::lemma_step(n, y, 147396, 2724729242931674004805600836069563int, 1);
}

/// An element of order `4229279` modulo `10427374428728808478656897599072717`.
proof fn lemma_order_4229279_10427374428728808478656897599072717()
    ensures
        primes::has_order(
            10427374428728808478656897599072717int,
            80641114290502549749304143711569int,
            4229279,
            9870642282309623074479636775292141int,
        ),
{
    let n = 10427374428728808478656897599072717int;
    let y = 80641114290502549749304143711569int;
    lemma_pow1(y);
    primes::lemma_square(n, y, 1, 80641114290502549749304143711569int, 5623074861389600265887799363582250int);
    primes::lemma_square(n, y, 2, 5623074861389600265887799363582250int, 308808702861155435769611817035890int);
    primes::lemma_square(n, y, 4, 308808702861155435769611817035890int, 1657013963220171309720443068487752int);
    primes::lemma_square(n, y, 8, 1657013963220171309720443068487752int, 6705594872977502760384992489463028int);
    primes::lemma_square(n, y, 16, 6705594872977502760384992489463028int, 4587916302720376448648279466691474int);
    primes::lemma_square(n, y, 32, 4587916302720376448648279466691474int, 3960632206639036864662351478318070int);
    primes::lemma_step(n, y, 64, 3960632206639036864662351478318070int, 7652955816586620909096791551865726int);
    primes::lemma_square(n, y, 129, 7652955816586620909096791551865726int, 8240515866279917483626795133981276int);
    primes::lemma_square(n, y, 258, 8240515866279917483626795133981276int, 9948667791419161018494981729058377int);
    primes::lemma_square(n, y, 516, 9948667791419161018494981729058377int, 3247349484418332009723316920912473int);
    primes::lemma_step(n, y, 1032, 3247349484418332009723316920912473int, 213325966654172637941838525325324int);
    primes::lemma_square(n, y, 2065, 213325966654172637941838525325324int, 8068492958103238115888182717144638int);
    primes::lemma_square(n, y, 4130, 8068492958103238115888182717144638int, 3765137393100524012120007066484780int);
    primes::lemma_square(n, y, 8260, 3765137393100524012120007066484780int, 2882723921229382097634398736485730int);
    primes::lemma_step(n, y, 16520, 2882723921229382097634398736485730int, 1328751305965820556851711377375442int);
    primes::lemma_square(n, y, 33041, 1328751305965820556851711377375442int, 7614560772875161009329455746640422int);
    primes::lemma_square(n, y, 66082, 7614560772875161009329455746640422int, 9120986250056354129356573653795931int);
    primes::lemma_step(n, y, 132164, 9120986250056354129356573653795931int, 4876491850597822657391580545375831int);
    primes::lemma_step(n, y, 264329, 4876491850597822657391580545375831int, 4253358004527754650397638914935718int);
    primes::lemma_step(n, y, 528659, 4253358004527754650397638914935718int, 8052466281294630648395082169172028int);
    primes::lemma_step(n, y, 1057319, 8052466281294630648395082169172028int, 80464868157705586934063689269685int);
    primes::lemma_step(n, y, 2114639, 80464868157705586934063689269685int, 1);
}

/// An element of order `399082391` modulo `10427374428728808478656897599072717`.
proof fn lemma_order_399082391_10427374428728808478656897599072717()
    ensures
        primes::has_order(
            10427374428728808478656897599072717int,
            8608077744952143376646591648751451int,
            399082391,
            9594354843854567192677827349439447int,
        ),
{
    let n = 10427374428728808478656897599072717int;
    let y = 8608077744952143376646591648751451int;
    lemma_pow1(y);
    primes::lemma_square(n, y, 1, 8608077744952143376646591648751451int, 9814668366703324426655526889103757int);
    primes::lemma_step(n, y, 2, 9814668366703324426655526889103757int, 10126788607438085129959079762059110int);
    primes::lemma_step(n, y, 5, 10126788607438085129959079762059110int, 3025824372244177331685415519674682int);
    primes::lemma_step(n, y, 11, 3025824372244177331685415519674682int, 4940587467458951532406392462428276int);
    primes::lemma_step(n, y, 23, 4940587467458951532406392462428276int, 7640329650377548721592492154247358int);
    primes::lemma_step(n, y, 47, 7640329650377548721592492154247358int, 6771206550741213655567369485235707int);
    primes::lemma_square(n, y, 95, 6771206550741213655567369485235707int, 2308046885718591574726851940657354int);
    primes::lemma_square(n, y, 190, 2308046885718591574726851940657354int, 10272417534390570198171513643281705int);
    primes::lemma_step(n, y, 380, 10272417534390570198171513643281705int, 86357807601930155762224013588346int);
    primes::lemma_square(n, y, 761, 86357807601930155762224013588346int, 3852775764779326091861146603737325int);
    primes::lemma_square(n, y, 1522, 3852775764779326091861146603737325int, 6588266828926419917728097289172023int);
    primes::lemma_step(n, y, 3044, 6588266828926419917728097289172023int, 329297325864225042435466886110305int);
    primes::lemma_step(n, y, 6089, 329297325864225042435466886110305int, 5165741790601170899273794064847032int);
    primes::lemma_square(n, y, 12179, 5165741790601170899273794064847032int, 322231958350252457038622937903039int);
    primes::lemma_square(n, y, 24358, 322231958350252457038622937903039int, 3480951205221279157871513594992382int);
    primes::lemma_square(n, y, 48716, 3480951205221279157871513594992382int, 1288954499782490513073505184654147int);
    primes::lemma_square(n, y, 97432, 1288954499782490513073505184654147int, 2291538878914272338597745424819246int);
    primes::lemma_square(n, y, 194864, 2291538878914272338597745424819246int, 5745197956570304619609031584781178int);
    primes::lemma_step(n, y, 389728, 5745197956570304619609031584781178int, 2185097253860495049104922441478602int);
    primes::lemma_step(n, y, 779457, 2185097253860495049104922441478602int, 4459044027692508266745850216352413int);
    primes::lemma_step(n, y, 1558915, 4459044027692508266745850216352413int, 7747716286401288143485513372799291int);
    primes::lemma_square(n, y, 3117831, 7747716286401288143485513372799291int, 8357557393672679010150996932692594int);
    primes::lemma_square(n, y, 6235662, 8357557393672679010150996932692594int, 5420116283188500906740144162106417int);
    primes::lemma_step(n, y, 12471324, 5420116283188500906740144162106417int, 5217105602990514679875118192040455int);
    primes::lemma_square(n, y, 24942649, 5217105602990514679875118192040455int, 9421815515670197178292244768552390int);
    primes::lemma_step(n, y, 49885298, 9421815515670197178292244768552390int, 6097449530976500365898782325118151int);
    primes::lemma_step(n, y, 99770597, 6097449530976500365898782325118151int, 8873607767716538694270752148164739int);
    primes::lemma_step(n, y, 199541195, 8873607767716538694270752148164739int, 1);
}

/// `10427374428728808478656897599072717` has no divisor.
proof fn lemma_prime_10427374428728808478656897599072717()
    ensures
        primes::is_prime(10427374428728808478656897599072717int),
{
    let n = 10427374428728808478656897599072717int;
    lemma_prime_294793();
    lemma_order_294793_10427374428728808478656897599072717();
    lemma_prime_4229279();
    lemma_order_4229279_10427374428728808478656897599072717();
    lemma_prime_399082391();
    lemma_order_399082391_10427374428728808478656897599072717();
    assert forall|q: int| primes::is_prime(q) && #[trigger] (n % q) == 0 implies (q - 1)
        % 497560697809662354577int == 0 by {
        primes::lemma_order_of_divisor(
            n,
            141030142704377787764626290196987int,
            294793,
            3840105716387621521342224917013011int,
            q,
        );
        primes::lemma_order_of_divisor(
            n,
            80641114290502549749304143711569int,
            4229279,
            9870642282309623074479636775292141int,
            q,
        );
        primes::lemma_multiple_of_both(q - 1, 294793, 4229279);
        primes::lemma_order_of_divisor(
            n,
            8608077744952143376646591648751451int,
            399082391,
            9594354843854567192677827349439447int,
            q,
        );
        primes::lemma_multiple_of_both(q - 1, 1246761844247, 399082391);
    }
    primes::lemma_pocklington(n, 497560697809662354577int);
}

/// An element of order `8999194758858563409123804352480028797519453` modulo that of the Vesta
/// scalars.
proof fn lemma_order_vesta()
    ensures
        primes::has_order(
            vesta::vesta_modulus(),
            23769141747542929275130461462532321991434488634464651886715445812013527626387int,
            8999194758858563409123804352480028797519453int,
            13506134933905820887257724805409983033698504090997199364682626171592726708858int,
        ),
{
    let n = vesta::vesta_modulus();
    let y = 23769141747542929275130461462532321991434488634464651886715445812013527626387int;
    lemma_pow1(y);
    primes::lemma_step(n, y, 1, 23769141747542929275130461462532321991434488634464651886715445812013527626387int, 10363688149616986197367260247355461548199937960255424584093260609799221594573int);
    primes::lemma_square(n, y, 3, 10363688149616986197367260247355461548199937960255424584093260609799221594573int, 9390288646249982065452690214960396652955421356765337585468161989911389189598int);
    primes::lemma_square(n, y, 6, 9390288646249982065452690214960396652955421356765337585468161989911389189598int, 6350568557501576429972373202947000390091245136829655759399850284953681786435int);
    primes::lemma_step(n, y, 12, 6350568557501576429972373202947000390091245136829655759399850284953681786435int, 23512802676145630321003449393609993213240988619698363382742404017735750530937int);
    primes::lemma_step(n, y, 25, 23512802676145630321003449393609993213240988619698363382742404017735750530937int, 24130240218088260738500816975046334601849759616675355369115677601847840441217int);
    primes::lemma_step(n, y, 51, 24130240218088260738500816975046334601849759616675355369115677601847840441217int, 19607935512995635133814973031558561083337718154320895174295297141592268556170int);
    primes::lemma_square(n, y, 103, 19607935512995635133814973031558561083337718154320895174295297141592268556170int, 14143456247889193987921062478474559308401897553754464016679992212718434476100int);
    primes::lemma_step(n, y, 206, 14143456247889193987921062478474559308401897553754464016679992212718434476100int, 12295505059630908491604012226521340585167674882165435868199004595869484417023int);
    primes::lemma_square(n, y, 413, 12295505059630908491604012226521340585167674882165435868199004595869484417023int, 13152605427069322349523220053506944698838201017250241192594817839543453025700int);
    primes::lemma_square(n, y, 826, 13152605427069322349523220053506944698838201017250241192594817839543453025700int, 8550272071120088043153781674156118203397581515185512751172300705395841335922int);
    primes::lemma_step(n, y, 1652, 8550272071120088043153781674156118203397581515185512751172300705395841335922int, 6258935697082962854755653912504723251804078512479890913684010657335395176108int);
    primes::lemma_step(n, y, 3305, 6258935697082962854755653912504723251804078512479890913684010657335395176108int, 20476360138433177513043349119900257373262248572586872255012982766997659438057int);
    primes::lemma_step(n, y, 6611, 20476360138433177513043349119900257373262248572586872255012982766997659438057int, 3417642949943526113813604243750605826837098164842313883636037334067305853035int);
    primes::lemma_square(n, y, 13223, 3417642949943526113813604243750605826837098164842313883636037334067305853035int, 25139423276540041935260275086546893828785357317069591993322155721759988683876int);
    primes::lemma_square(n, y, 26446, 25139423276540041935260275086546893828785357317069591993322155721759988683876int, 14803656337236466359971796043395982982607695723280542127471790450018147093492int);
    primes::lemma_step(n, y, 52892, 14803656337236466359971796043395982982607695723280542127471790450018147093492int, 10011645064774315456242314417671183541743287646795798469362095523576052608985int);
    primes::lemma_square(n, y, 105785, 10011645064774315456242314417671183541743287646795798469362095523576052608985int, 11030656943564345661790493648450933056517572600280346155697659999578810785635int);
    primes::lemma_square(n, y, 211570, 11030656943564345661790493648450933056517572600280346155697659999578810785635int, 25410026973396272361171801920728896520781582940406483321637165183649060981726int);
    primes::lemma_square(n, y, 423140, 25410026973396272361171801920728896520781582940406483321637165183649060981726int, 24877720544036230578013248896788163609272878634590873079243520952727125049376int);
    primes::lemma_square(n, y, 846280, 24877720544036230578013248896788163609272878634590873079243520952727125049376int, 22677069465435411673325847865767516912421341920320232149124523533284801184727int);
    primes::lemma_square(n, y, 1692560, 22677069465435411673325847865767516912421341920320232149124523533284801184727int, 9857622846991586647237878883261835622202025996251026275170692452184762998951int);
    primes::lemma_step(n, y, 3385120, 9857622846991586647237878883261835622202025996251026275170692452184762998951int, 25008865805986602932661396138604751948152722806569506355396405284545321006886int);
    primes::lemma_step(n, y, 6770241, 25008865805986602932661396138604751948152722806569506355396405284545321006886int, 28562380456934344345839578400216832103235772151835205349290707882791024867585int);
    primes::lemma_square(n, y, 13540483, 28562380456934344345839578400216832103235772151835205349290707882791024867585int, 25617016501789704090814455803509910689255320103279401559332742006905420655802int);
    primes::lemma_step(n, y, 27080966, 25617016501789704090814455803509910689255320103279401559332742006905420655802int, 26936089990758875515490383742749248893321477661187114362833737795869363187134int);
    primes::lemma_square(n, y, 54161933, 26936089990758875515490383742749248893321477661187114362833737795869363187134int, 15875184672566912713766784787483557830462987229792320427003500057311967871223int);
    primes::lemma_step(n, y, 108323866, 15875184672566912713766784787483557830462987229792320427003500057311967871223int, 870161337322144356009574712794099037708146774130678242699834840986027546805int);
    primes::lemma_square(n, y, 216647733, 870161337322144356009574712794099037708146774130678242699834840986027546805int, 11153905265960963915826471507129773862957572910988291442744656356678802813774int);
    primes::lemma_step(n, y, 433295466, 11153905265960963915826471507129773862957572910988291442744656356678802813774int, 5595592828629309297025788150284188430268237728663337384578010843823240227361int);
    primes::lemma_square(n, y, 866590933, 5595592828629309297025788150284188430268237728663337384578010843823240227361int, 1968762600221196455301707461060014401405666219234588481709661526984985559478int);
    primes::lemma_square(n, y, 1733181866, 1968762600221196455301707461060014401405666219234588481709661526984985559478int, 8178986751367896080691036623309852043600220811779109261480385626540874484672int);
    primes::lemma_square(n, y, 3466363732, 8178986751367896080691036623309852043600220811779109261480385626540874484672int, 2864281972703852698633405939806293683790194801851071446891346509565574704500int);
    primes::lemma_step(n, y, 6932727464, 2864281972703852698633405939806293683790194801851071446891346509565574704500int, 12885178097907043030081592592231558329208585034081447348036950058749789254919int);
    primes::lemma_square(n, y, 13865454929, 12885178097907043030081592592231558329208585034081447348036950058749789254919int, 2715106580410773167272887501689181574209436656438573024925648833302108918666int);
    primes::lemma_square(n, y, 27730909858, 2715106580410773167272887501689181574209436656438573024925648833302108918666int, 3019328700714474783792413268026904772035580727275250598977366549878070574607int);
    primes::lemma_step(n, y, 55461819716, 3019328700714474783792413268026904772035580727275250598977366549878070574607int, 16237493332976030919947415714225369113297940861858311496599298899825101436202int);
    primes::lemma_square(n, y, 110923639433, 16237493332976030919947415714225369113297940861858311496599298899825101436202int, 28270656694386686999051040432728106756765836694517889752007789843095191607512int);
    primes::lemma_step(n, y, 221847278866, 28270656694386686999051040432728106756765836694517889752007789843095191607512int, 3430741767397500701778297809259782840551087744900345540736232164161379969770int);
    primes::lemma_square(n, y, 443694557733, 3430741767397500701778297809259782840551087744900345540736232164161379969770int, 16775702581436090995101388096941208017718662490597742034806200529221210923334int);
    primes::lemma_step(n, y, 887389115466, 16775702581436090995101388096941208017718662490597742034806200529221210923334int, 15071535455710425758356279511274306029048642734231273656726073452116653102030int);
    primes::lemma_square(n, y, 1774778230933, 15071535455710425758356279511274306029048642734231273656726073452116653102030int, 16089007647543621670111299522004698075782191677256940341938817820510793640777int);
    primes::lemma_step(n, y, 3549556461866, 16089007647543621670111299522004698075782191677256940341938817820510793640777int, 21549630876387988037831017859811836608002237500797252496883706295958790780807int);
    primes::lemma_square(n, y, 7099112923733, 21549630876387988037831017859811836608002237500797252496883706295958790780807int, 9941830022057851816245760195600659869667634534820992028744945551150515013419int);
    primes::lemma_step(n, y, 14198225847466, 9941830022057851816245760195600659869667634534820992028744945551150515013419int, 20564835540619441026648188444198840664527263029382936549390951434433271712996int);
    primes::lemma_square(n, y, 28396451694933, 20564835540619441026648188444198840664527263029382936549390951434433271712996int, 12945077313281109276879493026302885778201492995009347494209804206808326251139int);
    primes::lemma_step(n, y, 56792903389866, 12945077313281109276879493026302885778201492995009347494209804206808326251139int, 7191584089996894203519252323454694660822845088017553956842365243498605642923int);
    primes::lemma_step(n, y, 113585806779733, 7191584089996894203519252323454694660822845088017553956842365243498605642923int, 26209698917260991583969613513104519849881148256106314879290409451261272595970int);
    primes::lemma_square(n, y, 227171613559467, 26209698917260991583969613513104519849881148256106314879290409451261272595970int, 5636311191163502207354710204165660923114217355316314870645831475126853883966int);
    primes::lemma_square(n, y, 454343227118934, 5636311191163502207354710204165660923114217355316314870645831475126853883966int, 21462641827214029176015885042243755748166673243121696613577091889598446626459int);
    primes::lemma_step(n, y, 908686454237868, 21462641827214029176015885042243755748166673243121696613577091889598446626459int, 26787195971126659408740566961398437321849525745503904981381803306943606112452int);
    primes::lemma_step(n, y, 1817372908475737, 26787195971126659408740566961398437321849525745503904981381803306943606112452int, 1759358755448258898053929742195150168062029308028046355342630797495726275919int);
    primes::lemma_step(n, y, 3634745816951475, 1759358755448258898053929742195150168062029308028046355342630797495726275919int, 10767935359441174387395409150570297166404500976750385709706676488100508338527int);
    primes::lemma_step(n, y, 7269491633902951, 10767935359441174387395409150570297166404500976750385709706676488100508338527int, 24320711444782887098493483212763374636945125675126954002862985574467188005179int);
    primes::lemma_step(n, y, 14538983267805903, 24320711444782887098493483212763374636945125675126954002862985574467188005179int, 5316530564755770361474508136396173546037958705656755733587123846994606807256int);
    primes::lemma_square(n, y, 29077966535611807, 5316530564755770361474508136396173546037958705656755733587123846994606807256int, 4557141856274440709747135360431452944648090359974013697132838241532473822470int);
    primes::lemma_square(n, y, 58155933071223614, 4557141856274440709747135360431452944648090359974013697132838241532473822470int, 14487110534437050617324986806177703741724695104083591676169582106409987451362int);
    primes::lemma_step(n, y, 116311866142447228, 14487110534437050617324986806177703741724695104083591676169582106409987451362int, 19045080094516751709886328476023449574416811798430212815254351735271975425508int);
    primes::lemma_step(n, y, 232623732284894457, 19045080094516751709886328476023449574416811798430212815254351735271975425508int, 2555986560636418882758798535016348267820954713764219448684544851162615732320int);
    primes::lemma_step(n, y, 465247464569788915, 2555986560636418882758798535016348267820954713764219448684544851162615732320int, 12320246243129887364969076777022676942749225385898353023131161798004208752926int);
    primes::lemma_step(n, y, 930494929139577831, 12320246243129887364969076777022676942749225385898353023131161798004208752926int, 237623570569656476335455585713024702952411073019011455953838551693404618708int);
    primes::lemma_step(n, y, 1860989858279155663, 237623570569656476335455585713024702952411073019011455953838551693404618708int, 24515459307087503109088192655063965325036402802239530111611259076557359385502int);
    primes::lemma_step(n, y, 3721979716558311327, 24515459307087503109088192655063965325036402802239530111611259076557359385502int, 2693034778045521742966703161381959774351483709564136507379626608595069221150int);
    primes::lemma_square(n, y, 7443959433116622655, 2693034778045521742966703161381959774351483709564136507379626608595069221150int, 9883646219731192702038423514613967999570139373264486380187230966104015418289int);
    primes::lemma_step(n, y, 14887918866233245310, 9883646219731192702038423514613967999570139373264486380187230966104015418289int, 26385921579096223435815764884302348753322758850927743822015277311047924979535int);
    primes::lemma_step(n, y, 29775837732466490621nat, 26385921579096223435815764884302348753322758850927743822015277311047924979535int, 9706902346085471055592558616208815412446154265839427394650711569522788537189int);
    primes::lemma_square(n, y, 59551675464932981243nat, 9706902346085471055592558616208815412446154265839427394650711569522788537189int, 5478221814815047412180119380197082352064309715196437282476486229598572638983int);
    primes::lemma_step(n, y, 119103350929865962486nat, 5478221814815047412180119380197082352064309715196437282476486229598572638983int, 20944275449256667769784433778242868196588993051740463954644127000004830424528int);
    primes::lemma_square(n, y, 238206701859731924973nat, 20944275449256667769784433778242868196588993051740463954644127000004830424528int, 21777097696310369479621105092545159985778014213839211706074755420837541893563int);
    primes::lemma_square(n, y, 476413403719463849946nat, 21777097696310369479621105092545159985778014213839211706074755420837541893563int, 8479803934544805595135973662751160556493742095402451887639344569767461816241int);
    primes::lemma_square(n, y, 952826807438927699892nat, 8479803934544805595135973662751160556493742095402451887639344569767461816241int, 20312890649498130470052978638229564617072406244201139446877558332472894290725int);
    primes::lemma_square(n, y, 1905653614877855399784nat, 20312890649498130470052978638229564617072406244201139446877558332472894290725int, 16306741378676619920720785861559176794516831278449932652424005551099623891924int);
    primes::lemma_square(n, y, 3811307229755710799568nat, 16306741378676619920720785861559176794516831278449932652424005551099623891924int, 537336734752304161160498438100283499491842489996606769848807014769233186142int);
    primes::lemma_square(n, y, 7622614459511421599136nat, 537336734752304161160498438100283499491842489996606769848807014769233186142int, 17787826495799968804577023704495906954142371172909228238845220718326417665694int);
    primes::lemma_square(n, y, 15245228919022843198272nat, 17787826495799968804577023704495906954142371172909228238845220718326417665694int, 23740217226857272295653970191566570426604490163257756645879343258194455563314int);
    primes::lemma_square(n, y, 30490457838045686396544nat, 23740217226857272295653970191566570426604490163257756645879343258194455563314int, 23401717783250204656911481682176547056646466228142244063589730922218258021286int);
    primes::lemma_step(n, y, 60980915676091372793088nat, 23401717783250204656911481682176547056646466228142244063589730922218258021286int, 22063172565796896902120406589509971230949916492535060537506530728168940157596int);
    primes::lemma_step(n, y, 121961831352182745586177nat, 22063172565796896902120406589509971230949916492535060537506530728168940157596int, 6887822899152283621588222323352479690134511862627395094221768519509737775574int);
    primes::lemma_square(n, y, 243923662704365491172355nat, 6887822899152283621588222323352479690134511862627395094221768519509737775574int, 2462372120573567874644844757202640303129403310377050556880281222572280683132int);
    primes::lemma_step(n, y, 487847325408730982344710nat, 2462372120573567874644844757202640303129403310377050556880281222572280683132int, 10840364772540211003590501678526152292992251302373173968483609699897580484039int);
    primes::lemma_step(n, y, 975694650817461964689421nat, 10840364772540211003590501678526152292992251302373173968483609699897580484039int, 9718700463887400414483729410731754846998021626946259918784543509985678815581int);
    primes::lemma_square(n, y, 1951389301634923929378843nat, 9718700463887400414483729410731754846998021626946259918784543509985678815581int, 28884331846427872576999295126127166187456292507800910293413798986492690767374int);
    primes::lemma_square(n, y, 3902778603269847858757686nat, 28884331846427872576999295126127166187456292507800910293413798986492690767374int, 7748406340587486994167436809625330694163105691351316149079945833762522241595int);
    primes::lemma_step(n, y, 7805557206539695717515372nat, 7748406340587486994167436809625330694163105691351316149079945833762522241595int, 8619929674420919678018045719631345630558796866899040941305323354522527780342int);
    primes::lemma_square(n, y, 15611114413079391435030745nat, 8619929674420919678018045719631345630558796866899040941305323354522527780342int, 9038016487647666397119609857352542822754442112148674010811591702349305448103int);
    primes::lemma_step(n, y, 31222228826158782870061490nat, 9038016487647666397119609857352542822754442112148674010811591702349305448103int, 17737912097330091419199207373751443530713188935049593879979129952146870487707int);
    primes::lemma_square(n, y, 62444457652317565740122981nat, 17737912097330091419199207373751443530713188935049593879979129952146870487707int, 5349591134344390126346251585104499064470928238621702877759189542434874935680int);
    primes::lemma_square(n, y, 124888915304635131480245962nat, 5349591134344390126346251585104499064470928238621702877759189542434874935680int, 27865999105372796132818821377352920996390994176193484648208256417003455823600int);
    primes::lemma_step(n, y, 249777830609270262960491924nat, 27865999105372796132818821377352920996390994176193484648208256417003455823600int, 17120521567848743304291822096733658018268274509878497558348718155343964128474int);
    primes::lemma_step(n, y, 499555661218540525920983849nat, 17120521567848743304291822096733658018268274509878497558348718155343964128474int, 2906068605506258081344617131159824157053773270298735657292547702381313240978int);
    primes::lemma_step(n, y, 999111322437081051841967699nat, 2906068605506258081344617131159824157053773270298735657292547702381313240978int, 176532730399100666541261920816584157435216655634264551100421169773623629702int);
    primes::lemma_square(n, y, 1998222644874162103683935399nat, 176532730399100666541261920816584157435216655634264551100421169773623629702int, 17994923599112749501167324450487277066653132462287491059563677193981428413252int);
    primes::lemma_square(n, y, 3996445289748324207367870798nat, 17994923599112749501167324450487277066653132462287491059563677193981428413252int, 588709016393429578666358934234224865608134374164410751655560881219194461695int);
    primes::lemma_step(n, y, 7992890579496648414735741596nat, 588709016393429578666358934234224865608134374164410751655560881219194461695int, 16116842296686793190577825245017906682405098819453232914144701620764734955147int);
    primes::lemma_step(n, y, 15985781158993296829471483193nat, 16116842296686793190577825245017906682405098819453232914144701620764734955147int, 27596346787334635091684699692913729505009431416945981882566433831501711502064int);
    primes::lemma_square(n, y, 31971562317986593658942966387nat, 27596346787334635091684699692913729505009431416945981882566433831501711502064int, 1072493151842188251171254559430244050681732832879082001688694651558140661773int);
    primes::lemma_square(n, y, 63943124635973187317885932774nat, 1072493151842188251171254559430244050681732832879082001688694651558140661773int, 837050018953808336252187392935983855541095486487745169692295239694772334629int);
    primes::lemma_step(n, y, 127886249271946374635771865548nat, 837050018953808336252187392935983855541095486487745169692295239694772334629int, 7002473943069418657815531544787604112309666114810119824284483511888661758649int);
    primes::lemma_square(n, y, 255772498543892749271543731097nat, 7002473943069418657815531544787604112309666114810119824284483511888661758649int, 934526121801510832339331245463590690352843869177254313239117676210624516388int);
    primes::lemma_square(n, y, 511544997087785498543087462194nat, 934526121801510832339331245463590690352843869177254313239117676210624516388int, 10067088290556825222235159981008717241711997091023923872877943676341977463103int);
    primes::lemma_step(n, y, 1023089994175570997086174924388nat, 10067088290556825222235159981008717241711997091023923872877943676341977463103int, 15390056162377009869554604523556307327249453652209220230253377473779486806163int);
    primes::lemma_square(n, y, 2046179988351141994172349848777nat, 15390056162377009869554604523556307327249453652209220230253377473779486806163int, 26313953885329520081231475132905381727710129776591952348097209794041209464986int);
    primes::lemma_square(n, y, 4092359976702283988344699697554nat, 26313953885329520081231475132905381727710129776591952348097209794041209464986int, 7235894732811159051079211131299879241316102243867528049882767865891136378603int);
    primes::lemma_step(n, y, 8184719953404567976689399395108nat, 7235894732811159051079211131299879241316102243867528049882767865891136378603int, 1427342808696246862953863613857571189780933015892587926924844185746179493225int);
    primes::lemma_step(n, y, 16369439906809135953378798790217nat, 1427342808696246862953863613857571189780933015892587926924844185746179493225int, 11974274514664160600499190735353132657111567033741520433587362481221736966531int);
    primes::lemma_step(n, y, 32738879813618271906757597580435nat, 11974274514664160600499190735353132657111567033741520433587362481221736966531int, 11175475256656046238935751094884227068650170910653490871862280738019646807208int);
    primes::lemma_step(n, y, 65477759627236543813515195160871nat, 11175475256656046238935751094884227068650170910653490871862280738019646807208int, 5565392116569109371289539086162783140027778629193694800423373288374414023487int);
    primes::lemma_square(n, y, 130955519254473087627030390321743nat, 5565392116569109371289539086162783140027778629193694800423373288374414023487int, 4902943355839386580665479624536608063969494277903811400158981227244037494122int);
    primes::lemma_square(n, y, 261911038508946175254060780643486nat, 4902943355839386580665479624536608063969494277903811400158981227244037494122int, 8738929902027889889926463780565910593496922021653487166275533197370407020274int);
    primes::lemma_step(n, y, 523822077017892350508121561286972nat, 8738929902027889889926463780565910593496922021653487166275533197370407020274int, 24135339360302606154415659818159615445758439247812679637159487204707976263969int);
    primes::lemma_square(n, y, 1047644154035784701016243122573945nat, 24135339360302606154415659818159615445758439247812679637159487204707976263969int, 18347645389072932351387090842079568484091818607421581978650867176553278541658int);
    primes::lemma_step(n, y, 2095288308071569402032486245147890nat, 18347645389072932351387090842079568484091818607421581978650867176553278541658int, 1302228273952736694143471310974643873025664354083036430653537248266146419843int);
    primes::lemma_square(n, y, 4190576616143138804064972490295781nat, 1302228273952736694143471310974643873025664354083036430653537248266146419843int, 12060336976365234565412390127594640705159038535714129043446705240524636292195int);
    primes::lemma_square(n, y, 8381153232286277608129944980591562nat, 12060336976365234565412390127594640705159038535714129043446705240524636292195int, 5860338766378142189462334495984347023646841126571824071545574531027491986846int);
    primes::lemma_step(n, y, 16762306464572555216259889961183124nat, 5860338766378142189462334495984347023646841126571824071545574531027491986846int, 8820091696847556298484316160618754450637930045497574527856564651770837986754int);
    primes::lemma_step(n, y, 33524612929145110432519779922366249nat, 8820091696847556298484316160618754450637930045497574527856564651770837986754int, 1724379496167580481585705958846299795580978631932584358917270960647139349751int);
    primes::lemma_square(n, y, 67049225858290220865039559844732499nat, 1724379496167580481585705958846299795580978631932584358917270960647139349751int, 26028550917684391076286112113659879835156759786682484334086343593601178289847int);
    primes::lemma_square(n, y, 134098451716580441730079119689464998nat, 26028550917684391076286112113659879835156759786682484334086343593601178289847int, 11349002265489091722307949928305036720330468843957055889515763490834060422220int);
    primes::lemma_square(n, y, 268196903433160883460158239378929996nat, 11349002265489091722307949928305036720330468843957055889515763490834060422220int, 10601323382506616034254092894834907689716151974720584052493946154282197026036int);
    primes::lemma_step(n, y, 536393806866321766920316478757859992nat, 10601323382506616034254092894834907689716151974720584052493946154282197026036int, 8481985226086865308168795000007731031774120594658411336713622515106865307456int);
    primes::lemma_step(n, y, 1072787613732643533840632957515719985nat, 8481985226086865308168795000007731031774120594658411336713622515106865307456int, 22510539179056829274068820958474602919821214504263899833580671559913954827509int);
    primes::lemma_square(n, y, 2145575227465287067681265915031439971nat, 22510539179056829274068820958474602919821214504263899833580671559913954827509int, 12805853055638786469181253222136475170160822599164041548974074569291531016748int);
    primes::lemma_step(n, y, 4291150454930574135362531830062879942nat, 12805853055638786469181253222136475170160822599164041548974074569291531016748int, 5619043227730412594579071001969984147577521380771909221362356977243934553592int);
    primes::lemma_square(n, y, 8582300909861148270725063660125759885nat, 5619043227730412594579071001969984147577521380771909221362356977243934553592int, 10025767700117291836162678208599729733485069079395290707571502448764626661081int);
    primes::lemma_step(n, y, 17164601819722296541450127320251519770nat, 10025767700117291836162678208599729733485069079395290707571502448764626661081int, 21471102003358465613710716851900568795671463363167175974163637077785863274992int);
    primes::lemma_square(n, y, 34329203639444593082900254640503039541nat, 21471102003358465613710716851900568795671463363167175974163637077785863274992int, 21241174796041745368893738295515042806407188287256208462600599291325909440052int);
    primes::lemma_step(n, y, 68658407278889186165800509281006079082nat, 21241174796041745368893738295515042806407188287256208462600599291325909440052int, 21783902775692343978373075365651620559961832612406389667633097107071799629591int);
    primes::lemma_square(n, y, 137316814557778372331601018562012158165nat, 21783902775692343978373075365651620559961832612406389667633097107071799629591int, 21190793950970409451947222598589501603280691186642864991688961339291568742682int);
    primes::lemma_step(n, y, 274633629115556744663202037124024316330nat, 21190793950970409451947222598589501603280691186642864991688961339291568742682int, 6430715051641482767764271434779566126233187429821566855446881642969991092781int);
    primes::lemma_square(n, y, 549267258231113489326404074248048632661nat, 6430715051641482767764271434779566126233187429821566855446881642969991092781int, 14638465736147745550287718600228972343864898244728220056086899210703946737224int);
    primes::lemma_square(n, y, 1098534516462226978652808148496097265322nat, 14638465736147745550287718600228972343864898244728220056086899210703946737224int, 24007035154661297889685546297537878443087032180520109511648900281272994338796int);
    primes::lemma_square(n, y, 2197069032924453957305616296992194530644nat, 24007035154661297889685546297537878443087032180520109511648900281272994338796int, 9578157325729050752742123724551096025654014864817258494801180183159937231611int);
    primes::lemma_step(n, y, 4394138065848907914611232593984389061288nat, 9578157325729050752742123724551096025654014864817258494801180183159937231611int, 24515877119842570779740774110195758084053946117359447011014635937824216562461int);
    primes::lemma_step(n, y, 8788276131697815829222465187968778122577nat, 24515877119842570779740774110195758084053946117359447011014635937824216562461int, 16994815076345294358564824919421805773633390975258515296421016267209464668385int);
    primes::lemma_square(n, y, 17576552263395631658444930375937556245155nat, 16994815076345294358564824919421805773633390975258515296421016267209464668385int, 27108009583723567019993886989633660139519575600309383617298416293206156030811int);
    primes::lemma_square(n, y, 35153104526791263316889860751875112490310nat, 27108009583723567019993886989633660139519575600309383617298416293206156030811int, 20501796550680247008174239923847138147346243728950939964407634327455136050202int);
    primes::lemma_step(n, y, 70306209053582526633779721503750224980620nat, 20501796550680247008174239923847138147346243728950939964407634327455136050202int, 26183057895095964931657238237163448284711688711261131367247636858334231130839int);
    primes::lemma_square(n, y, 140612418107165053267559443007500449961241nat, 26183057895095964931657238237163448284711688711261131367247636858334231130839int, 16514358194718932891025037723613996017930340799662495321734699438954182204040int);
    primes::lemma_step(n, y, 281224836214330106535118886015000899922482nat, 16514358194718932891025037723613996017930340799662495321734699438954182204040int, 6900256147776412494164738710931329069306303749392659301999873201380385467877int);
    primes::lemma_step(n, y, 562449672428660213070237772030001799844965nat, 6900256147776412494164738710931329069306303749392659301999873201380385467877int, 16701065867238229561300267853680326043186835759219702785337344672312674194542int);
    primes::lemma_step(n, y, 1124899344857320426140475544060003599689931nat, 16701065867238229561300267853680326043186835759219702785337344672312674194542int, 5366171380404766529397112103580719368494322683838035723691871730549032450514int);
    primes::lemma_square(n, y, 2249798689714640852280951088120007199379863nat, 5366171380404766529397112103580719368494322683838035723691871730549032450514int, 6966909315971663956574123094384950375260046096367990509908126476051263382740int);
    primes::lemma_step(n, y, 4499597379429281704561902176240014398759726nat, 6966909315971663956574123094384950375260046096367990509908126476051263382740int, 1);
}

/// The modulus of the Vesta scalars is prime.
pub proof fn law_vesta_modulus_is_prime()
    ensures
        primes::is_prime(vesta::vesta_modulus()),
{
    let n = vesta::vesta_modulus();
    lemma_prime_8999194758858563409123804352480028797519453();
    lemma_order_vesta();
    assert forall|q: int| primes::is_prime(q) && #[trigger] (n % q) == 0 implies (q - 1)
        % 8999194758858563409123804352480028797519453int == 0 by {
        primes::lemma_order_of_divisor(
            n,
            23769141747542929275130461462532321991434488634464651886715445812013527626387int,
            8999194758858563409123804352480028797519453int,
            13506134933905820887257724805409983033698504090997199364682626171592726708858int,
            q,
        );
    }
    primes::lemma_pocklington(n, 8999194758858563409123804352480028797519453int);
}

/// An element of order `10427374428728808478656897599072717` modulo that of the Pallas scalars.
proof fn lemma_order_pallas()
    ensures
        primes::has_order(
            pallas::pallas_modulus(),
            21577701278964860764616844091496499530098850519810142228219162002401576116285int,
            10427374428728808478656897599072717int,
            17418406443545080562153166719893032899920793834068238320049535831780760938356int,
        ),
{
    let n = pallas::pallas_modulus();
    let y = 21577701278964860764616844091496499530098850519810142228219162002401576116285int;
    lemma_pow1(y);
    primes::lemma_square(n, y, 1, 21577701278964860764616844091496499530098850519810142228219162002401576116285int, 21846580544343706176676973587907608801260847913799732139620909382379898944013int);
    primes::lemma_square(n, y, 2, 21846580544343706176676973587907608801260847913799732139620909382379898944013int, 10182723118083424103010337650208768233762264742629506607293881574359217351242int);
    primes::lemma_square(n, y, 4, 10182723118083424103010337650208768233762264742629506607293881574359217351242int, 24827253723332196491440736973524664179341812749054128608152274357362557402135int);
    primes::lemma_square(n, y, 8, 24827253723332196491440736973524664179341812749054128608152274357362557402135int, 4445487045984336224953811052697792160812043907782792602885018878790540958601int);
    primes::lemma_square(n, y, 16, 4445487045984336224953811052697792160812043907782792602885018878790540958601int, 2106673631551044284909683111079451996128090789845061743282716742842282416893int);
    primes::lemma_square(n, y, 32, 2106673631551044284909683111079451996128090789845061743282716742842282416893int, 6423312533646177060216167460823482835632826263206642082522423723817866852065int);
    primes::lemma_square(n, y, 64, 6423312533646177060216167460823482835632826263206642082522423723817866852065int, 1488895618893245086007931764376995393922016377895376431234659175541773387787int);
    primes::lemma_step(n, y, 128, 1488895618893245086007931764376995393922016377895376431234659175541773387787int, 12479654391466718725563597097190952191925220304635605267506437326548624903047int);
    primes::lemma_square(n, y, 257, 12479654391466718725563597097190952191925220304635605267506437326548624903047int, 1268075878458542423016005830565848363942782548335571892808822518858957118198int);
    primes::lemma_square(n, y, 514, 1268075878458542423016005830565848363942782548335571892808822518858957118198int, 13503233873334146285382435577119668248046679857042779921624937102104950032392int);
    primes::lemma_square(n, y, 1028, 13503233873334146285382435577119668248046679857042779921624937102104950032392int, 10985183653914085092434566513306147662441377419783753317656749421917462031617int);
    primes::lemma_square(n, y, 2056, 10985183653914085092434566513306147662441377419783753317656749421917462031617int, 28225237020458801190181459531922979779984044549851663902782002794840636110452int);
    primes::lemma_step(n, y, 4112, 28225237020458801190181459531922979779984044549851663902782002794840636110452int, 27340903217857370651168542962359308208514256370552260117637368863173086514616int);
    primes::lemma_step(n, y, 8225, 27340903217857370651168542962359308208514256370552260117637368863173086514616int, 7682245590384098751014043210383967336926319554636188266255071702212567401292int);
    primes::lemma_square(n, y, 16451, 7682245590384098751014043210383967336926319554636188266255071702212567401292int, 24895306247369412079934149144846750138085004034153535100088777445193033197688int);
    primes::lemma_step(n, y, 32902, 24895306247369412079934149144846750138085004034153535100088777445193033197688int, 2357634155994468469199495771350880955142727130239221426321718362386080357038int);
    primes::lemma_step(n, y, 65805, 2357634155994468469199495771350880955142727130239221426321718362386080357038int, 967169576055309999309366919980223552357962170149700412167908127747569503122int);
    primes::lemma_step(n, y, 131611, 967169576055309999309366919980223552357962170149700412167908127747569503122int, 3459871494165049149927342899252989088342135244077855895437867701634476313252int);
    primes::lemma_step(n, y, 263223, 3459871494165049149927342899252989088342135244077855895437867701634476313252int, 3748565182921491389619796937957839247017913156247136420376300667176565880763int);
    primes::lemma_step(n, y, 526447, 3748565182921491389619796937957839247017913156247136420376300667176565880763int, 839402815499239284279616822436696667010957041792623974137499207746710924866int);
    primes::lemma_step(n, y, 1052895, 839402815499239284279616822436696667010957041792623974137499207746710924866int, 11333409813076877679315216697341635979189846212012066445432820216166185308097int);
    primes::lemma_square(n, y, 2105791, 11333409813076877679315216697341635979189846212012066445432820216166185308097int, 7666225441048943311917392143494574817386568476056358687447244263439621062851int);
    primes::lemma_step(n, y, 4211582, 7666225441048943311917392143494574817386568476056358687447244263439621062851int, 10495539127848136822851656975723876521417416843780603670775909588996252319848int);
    primes::lemma_step(n, y, 8423165, 10495539127848136822851656975723876521417416843780603670775909588996252319848int, 5721585081226864927757752183160546565030416815824905717137175839227930453914int);
    primes::lemma_step(n, y, 16846331, 5721585081226864927757752183160546565030416815824905717137175839227930453914int, 8435745442700553313383181287739340875545073266432789530444440628157350619187int);
    primes::lemma_step(n, y, 33692663, 8435745442700553313383181287739340875545073266432789530444440628157350619187int, 23357616492145596998652052700014359729198346237689468249502286339714285294809int);
    primes::lemma_step(n, y, 67385327, 23357616492145596998652052700014359729198346237689468249502286339714285294809int, 10378086535765382355019252793542453595152904932152539728587027680546430482227int);
    primes::lemma_step(n, y, 134770655, 10378086535765382355019252793542453595152904932152539728587027680546430482227int, 18556250230418021612804393036546746082402678498832061910300105669720744114596int);
    primes::lemma_square(n, y, 269541311, 18556250230418021612804393036546746082402678498832061910300105669720744114596int, 24574001261726912341775194670851312222924221465388524015784591633062195029915int);
    primes::lemma_step(n, y, 539082622, 24574001261726912341775194670851312222924221465388524015784591633062195029915int, 28105234808077639809314399318184000292903195591162270302827883740354005011536int);
    primes::lemma_step(n, y, 1078165245, 28105234808077639809314399318184000292903195591162270302827883740354005011536int, 25818443346014982242440094299049659041918503659177147558057287706030484468607int);
    primes::lemma_step(n, y, 2156330491, 25818443346014982242440094299049659041918503659177147558057287706030484468607int, 23098802588004380825522073507674764714405393163156843399248646364283808822303int);
    primes::lemma_step(n, y, 4312660983, 23098802588004380825522073507674764714405393163156843399248646364283808822303int, 27163233270770637932627432003349591196471618101841337856758633635005478282152int);
    primes::lemma_square(n, y, 8625321967, 27163233270770637932627432003349591196471618101841337856758633635005478282152int, 12051048899774941802512573090743570651359286862428412035215968408724850140830int);
    primes::lemma_step(n, y, 17250643934, 12051048899774941802512573090743570651359286862428412035215968408724850140830int, 15244007039809717424806119140379546029216353563158203715476493140294688605029int);
    primes::lemma_square(n, y, 34501287869, 15244007039809717424806119140379546029216353563158203715476493140294688605029int, 1328605971734270995412824895636798320698090567559996744907802278427611981659int);
    primes::lemma_square(n, y, 69002575738, 1328605971734270995412824895636798320698090567559996744907802278427611981659int, 6501193764169834594919918763602761821054754064210585257407345242432804424211int);
    primes::lemma_square(n, y, 138005151476, 6501193764169834594919918763602761821054754064210585257407345242432804424211int, 22697263906267407785865676545599801304590273086237035647591456085372426958321int);
    primes::lemma_step(n, y, 276010302952, 22697263906267407785865676545599801304590273086237035647591456085372426958321int, 21717173363448273107241102794221141475561285392461336132980420861740202443888int);
    primes::lemma_step(n, y, 552020605905, 21717173363448273107241102794221141475561285392461336132980420861740202443888int, 18955925036908685269580992204891055404838541595534798668175468036226341007547int);
    primes::lemma_square(n, y, 1104041211811, 18955925036908685269580992204891055404838541595534798668175468036226341007547int, 9972974627368269247027622232835720623299067823636395727750574462792942332421int);
    primes::lemma_step(n, y, 2208082423622, 9972974627368269247027622232835720623299067823636395727750574462792942332421int, 1568574238882043486783765939277655483803865097725192115602711993858792144837int);
    primes::lemma_square(n, y, 4416164847245, 1568574238882043486783765939277655483803865097725192115602711993858792144837int, 10770897284887286372034179229267386463056701757499138874084959048615350496026int);
    primes::lemma_square(n, y, 8832329694490, 10770897284887286372034179229267386463056701757499138874084959048615350496026int, 24739559139921616890968494170716519215973581451373052792113807240210120224912int);
    primes::lemma_step(n, y, 17664659388980, 24739559139921616890968494170716519215973581451373052792113807240210120224912int, 28935874047877063817802107154168605098008546404626853705453403647034185889983int);
    primes::lemma_square(n, y, 35329318777961, 28935874047877063817802107154168605098008546404626853705453403647034185889983int, 20082661654017573624387520886048482805047324368469930572487682764587491153715int);
    primes::lemma_square(n, y, 70658637555922, 20082661654017573624387520886048482805047324368469930572487682764587491153715int, 23389545789743997060530864200990038388328361734434630156804005068445731918186int);
    primes::lemma_step(n, y, 141317275111844, 23389545789743997060530864200990038388328361734434630156804005068445731918186int, 8099372904767740308602896215821649694217559634302540459319509237757699858782int);
    primes::lemma_square(n, y, 282634550223689, 8099372904767740308602896215821649694217559634302540459319509237757699858782int, 1238413290248722619950557037313103076886906337685983341610932713665003280561int);
    primes::lemma_square(n, y, 565269100447378, 1238413290248722619950557037313103076886906337685983341610932713665003280561int, 5037212100730830691233394782917189822543196131040083401596813080228416807108int);
    primes::lemma_step(n, y, 1130538200894756, 5037212100730830691233394782917189822543196131040083401596813080228416807108int, 5875400801448683748278522866232615765298453302882551686568879865661373222911int);
    primes::lemma_step(n, y, 2261076401789513, 5875400801448683748278522866232615765298453302882551686568879865661373222911int, 21755021006395021147327484332094723500078007232034579165610128350015758512488int);
    primes::lemma_step(n, y, 4522152803579027, 21755021006395021147327484332094723500078007232034579165610128350015758512488int, 13086382849065920511416881460972834849167890267618789527117777415243359573349int);
    primes::lemma_step(n, y, 9044305607158055, 13086382849065920511416881460972834849167890267618789527117777415243359573349int, 11725311644486888009724058994260923683278535239094993269218104751534554002765int);
    primes::lemma_step(n, y, 18088611214316111, 11725311644486888009724058994260923683278535239094993269218104751534554002765int, 13714206804825980206280771395988644397697480731406747826107320805173249045025int);
    primes::lemma_step(n, y, 36177222428632223, 13714206804825980206280771395988644397697480731406747826107320805173249045025int, 14548103562438821974251607142048782736418573738757387172091046051557397268344int);
    primes::lemma_square(n, y, 72354444857264447, 14548103562438821974251607142048782736418573738757387172091046051557397268344int, 26770882697140535965821899288607760456313505352247815055337015700952220636625int);
    primes::lemma_square(n, y, 144708889714528894, 26770882697140535965821899288607760456313505352247815055337015700952220636625int, 11223869537987847507587231826706944148970573445371767909411044105386573956965int);
    primes::lemma_step(n, y, 289417779429057788, 11223869537987847507587231826706944148970573445371767909411044105386573956965int, 913783531608379034239092433265905274806847365013428840178216113952646626197int);
    primes::lemma_square(n, y, 578835558858115577, 913783531608379034239092433265905274806847365013428840178216113952646626197int, 1003709978001858747184785594343905608504438529321186829490987246806990844248int);
    primes::lemma_step(n, y, 1157671117716231154, 1003709978001858747184785594343905608504438529321186829490987246806990844248int, 14643931673687442092088692579147304077365596510501180705484719417152039386365int);
    primes::lemma_step(n, y, 2315342235432462309, 14643931673687442092088692579147304077365596510501180705484719417152039386365int, 24137988486697985204086738247269843244019295658978201454964502748473706484191int);
    primes::lemma_square(n, y, 4630684470864924619, 24137988486697985204086738247269843244019295658978201454964502748473706484191int, 11687432260624975884257303059821356709027480853478938093918822206336268203883int);
    primes::lemma_step(n, y, 9261368941729849238, 11687432260624975884257303059821356709027480853478938093918822206336268203883int, 8313821195504607501929205116637090134186966268183815895878542689172907137407int);
    primes::lemma_step(n, y, 18522737883459698477nat, 8313821195504607501929205116637090134186966268183815895878542689172907137407int, 3535415054093059361324242332060420656414275889009043943919415484496035569624int);
    primes::lemma_step(n, y, 37045475766919396955nat, 3535415054093059361324242332060420656414275889009043943919415484496035569624int, 16973630822455467753141338804639897006041853070866718036301936277191262708329int);
    primes::lemma_square(n, y, 74090951533838793911nat, 16973630822455467753141338804639897006041853070866718036301936277191262708329int, 18887634236425117257501748445117318540978827592766642668954369903604586684571int);
    primes::lemma_step(n, y, 148181903067677587822nat, 18887634236425117257501748445117318540978827592766642668954369903604586684571int, 17161012919748693282270802145847536090466879605340197771848670049943059867200int);
    primes::lemma_step(n, y, 296363806135355175645nat, 17161012919748693282270802145847536090466879605340197771848670049943059867200int, 21147132525284193688711718306104670436493657014835433100788093467187302395666int);
    primes::lemma_square(n, y, 592727612270710351291nat, 21147132525284193688711718306104670436493657014835433100788093467187302395666int, 7660452681386205022120102137905583719641995660275896886316216364460749344009int);
    primes::lemma_step(n, y, 1185455224541420702582nat, 7660452681386205022120102137905583719641995660275896886316216364460749344009int, 15934346854328289463663504813712041651758648733946487668171522146151963644605int);
    primes::lemma_square(n, y, 2370910449082841405165nat, 15934346854328289463663504813712041651758648733946487668171522146151963644605int, 14732905561029781138843379179716657893484150983139264264142329493145622624875int);
    primes::lemma_square(n, y, 4741820898165682810330nat, 14732905561029781138843379179716657893484150983139264264142329493145622624875int, 26531700135289615642825077966856998421745663135890609077453292411730497211842int);
    primes::lemma_square(n, y, 9483641796331365620660nat, 26531700135289615642825077966856998421745663135890609077453292411730497211842int, 28371713550778799513972525869441438889805123785110534489708440315442875147847int);
    primes::lemma_square(n, y, 18967283592662731241320nat, 28371713550778799513972525869441438889805123785110534489708440315442875147847int, 5764084513138877928801687522279643344529032382618079110102024429420022924746int);
    primes::lemma_square(n, y, 37934567185325462482640nat, 5764084513138877928801687522279643344529032382618079110102024429420022924746int, 25899107963181089015596765863556167566932265103191090268894252366595519164184int);
    primes::lemma_square(n, y, 75869134370650924965280nat, 25899107963181089015596765863556167566932265103191090268894252366595519164184int, 26267363418122456920910106315535717611568458035636536505626986570645007619199int);
    primes::lemma_square(n, y, 151738268741301849930560nat, 26267363418122456920910106315535717611568458035636536505626986570645007619199int, 28081707449159282898359491408333485658311371022526782956147263323755722741122int);
    primes::lemma_square(n, y, 303476537482603699861120nat, 28081707449159282898359491408333485658311371022526782956147263323755722741122int, 15645400464549885726479221370829647718931922725302714242572121477741600480818int);
    primes::lemma_step(n, y, 606953074965207399722240nat, 15645400464549885726479221370829647718931922725302714242572121477741600480818int, 27790797014028880800890469279334342188626189298668145518177576026403500698893int);
    primes::lemma_step(n, y, 1213906149930414799444481nat, 27790797014028880800890469279334342188626189298668145518177576026403500698893int, 6159139426647020871483059360405131028406485119292410768192292904342002783900int);
    primes::lemma_step(n, y, 2427812299860829598888963nat, 6159139426647020871483059360405131028406485119292410768192292904342002783900int, 6295167509759036261378328691902259701724593104056800434098952524130699211629int);
    primes::lemma_step(n, y, 4855624599721659197777927nat, 6295167509759036261378328691902259701724593104056800434098952524130699211629int, 8543580235417740136171825554815998410496551778375565895602081632138967709360int);
    primes::lemma_square(n, y, 9711249199443318395555855nat, 8543580235417740136171825554815998410496551778375565895602081632138967709360int, 17433936816474762935860228989858917210457264488181600013967422005418883727507int);
    primes::lemma_step(n, y, 19422498398886636791111710nat, 17433936816474762935860228989858917210457264488181600013967422005418883727507int, 14958577442074738403862327365192071242755563937993071057990285757776059083883int);
    primes::lemma_square(n, y, 38844996797773273582223421nat, 14958577442074738403862327365192071242755563937993071057990285757776059083883int, 18269185423869052759434398875747820151296428219220011401555944787145297760528int);
    primes::lemma_step(n, y, 77689993595546547164446842nat, 18269185423869052759434398875747820151296428219220011401555944787145297760528int, 11197023568154541840962128377028906370167104895902436366238453773983145374683int);
    primes::lemma_square(n, y, 155379987191093094328893685nat, 11197023568154541840962128377028906370167104895902436366238453773983145374683int, 1629116959093289979903210701579727445868792703206151909411754076421890439694int);
    primes::lemma_step(n, y, 310759974382186188657787370nat, 1629116959093289979903210701579727445868792703206151909411754076421890439694int, 1620902064695037865891544331592721341568908485846370074166930399185331290325int);
    primes::lemma_square(n, y, 621519948764372377315574741nat, 1620902064695037865891544331592721341568908485846370074166930399185331290325int, 8055978037230182070721374223116001025548121819432973232026689315359680450183int);
    primes::lemma_step(n, y, 1243039897528744754631149482nat, 8055978037230182070721374223116001025548121819432973232026689315359680450183int, 24726841447873928013995857379619186835105949727347038757951976810298610933250int);
    primes::lemma_square(n, y, 2486079795057489509262298965nat, 24726841447873928013995857379619186835105949727347038757951976810298610933250int, 15404723307369304676597357761867853474965059245722983022153321588659568644549int);
    primes::lemma_square(n, y, 4972159590114979018524597930nat, 15404723307369304676597357761867853474965059245722983022153321588659568644549int, 4224039423356472235806201522174785084924410384589265683940102853692058970762int);
    primes::lemma_step(n, y, 9944319180229958037049195860nat, 4224039423356472235806201522174785084924410384589265683940102853692058970762int, 6238264902785565316506919794203551227599750262163115043368216121278916023207int);
    primes::lemma_step(n, y, 19888638360459916074098391721nat, 6238264902785565316506919794203551227599750262163115043368216121278916023207int, 14035108905739030664131047123797258748415508239890287742332108827534015333338int);
    primes::lemma_step(n, y, 39777276720919832148196783443nat, 14035108905739030664131047123797258748415508239890287742332108827534015333338int, 26452685976181062873344591771548460056463879061222573234747554213390877675392int);
    primes::lemma_square(n, y, 79554553441839664296393566887nat, 26452685976181062873344591771548460056463879061222573234747554213390877675392int, 6634693468357659924275200011600243863685175008180420795574254956703570241832int);
    primes::lemma_step(n, y, 159109106883679328592787133774nat, 6634693468357659924275200011600243863685175008180420795574254956703570241832int, 18613690350365303885857298231777872571276494271493646762830025506229909591628int);
    primes::lemma_step(n, y, 318218213767358657185574267549nat, 18613690350365303885857298231777872571276494271493646762830025506229909591628int, 9723182983075092831590091145431625467905814167045796246952925680688943094591int);
    primes::lemma_step(n, y, 636436427534717314371148535099nat, 9723182983075092831590091145431625467905814167045796246952925680688943094591int, 18762738350573247297907689219917790517245929427305293775742868048386112190084int);
    primes::lemma_square(n, y, 1272872855069434628742297070199nat, 18762738350573247297907689219917790517245929427305293775742868048386112190084int, 27528262951377171976644312251164292121901321579273904346282653010246485395097int);
    primes::lemma_step(n, y, 2545745710138869257484594140398nat, 27528262951377171976644312251164292121901321579273904346282653010246485395097int, 3904918354640049014441231711025026621534892029109283417290609372662083663854int);
    primes::lemma_square(n, y, 5091491420277738514969188280797nat, 3904918354640049014441231711025026621534892029109283417290609372662083663854int, 26386524445694958580233838526137135848488236561266664747444993252110356160306int);
    primes::lemma_square(n, y, 10182982840555477029938376561594nat, 26386524445694958580233838526137135848488236561266664747444993252110356160306int, 3474289070120973480897601525581925860742712366778449424261899981286277696763int);
    primes::lemma_step(n, y, 20365965681110954059876753123188nat, 3474289070120973480897601525581925860742712366778449424261899981286277696763int, 2442136456563926461448560878892056319935224044434887261946292590255843258438int);
    primes::lemma_step(n, y, 40731931362221908119753506246377nat, 2442136456563926461448560878892056319935224044434887261946292590255843258438int, 25014680831201490911938169511688196656403559086713300100768812147131473564440int);
    primes::lemma_step(n, y, 81463862724443816239507012492755nat, 25014680831201490911938169511688196656403559086713300100768812147131473564440int, 4107892376866158616075869383655864739532483691582226400322642143702263475187int);
    primes::lemma_square(n, y, 162927725448887632479014024985511nat, 4107892376866158616075869383655864739532483691582226400322642143702263475187int, 14506423720745661989163287834067769069750122224265710323134768954508966431316int);
    primes::lemma_square(n, y, 325855450897775264958028049971022nat, 14506423720745661989163287834067769069750122224265710323134768954508966431316int, 4392570478179756015184885321507120714374884764743631743752344619712783623918int);
    primes::lemma_step(n, y, 651710901795550529916056099942044nat, 4392570478179756015184885321507120714374884764743631743752344619712783623918int, 7331030776552030285770677772538685476598421749949255131920349224869341117810int);
    primes::lemma_step(n, y, 1303421803591101059832112199884089nat, 7331030776552030285770677772538685476598421749949255131920349224869341117810int, 6789057291102738913236707154765175492110370011938368177634397276346613174786int);
    primes::lemma_square(n, y, 2606843607182202119664224399768179nat, 6789057291102738913236707154765175492110370011938368177634397276346613174786int, 4978231151539150078676246737446190059283536143584308816382082061562507313820int);
    primes::lemma_step(n, y, 5213687214364404239328448799536358nat, 4978231151539150078676246737446190059283536143584308816382082061562507313820int, 1);
}

/// An element of order `2^32` modulo that of the Pallas scalars.
proof fn lemma_two_order_pallas()
    ensures
        pow(
            20761624379169977859705911634190121761503565370703356079647768903521299517535int,
            0x8000_0000,
        ) % pallas::pallas_modulus() == pallas::pallas_modulus() - 1,
{
    let n = pallas::pallas_modulus();
    let z = 20761624379169977859705911634190121761503565370703356079647768903521299517535int;
    lemma_pow1(z);
    primes::lemma_square(n, z, 1, 20761624379169977859705911634190121761503565370703356079647768903521299517535int, 16433095692735945303185004931083643981434465884121075650227802576650109544768int);
    primes::lemma_square(n, z, 2, 16433095692735945303185004931083643981434465884121075650227802576650109544768int, 18777355761321686825060947926532614526486796698585194982281091352721456712701int);
    primes::lemma_square(n, z, 4, 18777355761321686825060947926532614526486796698585194982281091352721456712701int, 25831901382065728664867960153155101148897150874178967238763243381138493467167int);
    primes::lemma_square(n, z, 8, 25831901382065728664867960153155101148897150874178967238763243381138493467167int, 22773247635032904119164032893125837000117110417590199562155140318113127410057int);
    primes::lemma_square(n, z, 16, 22773247635032904119164032893125837000117110417590199562155140318113127410057int, 16374165908474017255363312111776283654221082517704864233135435813379123366990int);
    primes::lemma_square(n, z, 32, 16374165908474017255363312111776283654221082517704864233135435813379123366990int, 6994246201078078115052998405476578293716892730818213730095610406795858604598int);
    primes::lemma_square(n, z, 64, 6994246201078078115052998405476578293716892730818213730095610406795858604598int, 20538633354915317735728431944271817692417354819955745238307097304564131773413int);
    primes::lemma_square(n, z, 128, 20538633354915317735728431944271817692417354819955745238307097304564131773413int, 9184835260888211923606117520784197778532238690982563737220614710555161475838int);
    primes::lemma_square(n, z, 256, 9184835260888211923606117520784197778532238690982563737220614710555161475838int, 1741238373790734165276792884374561543758314828808135130497238787665395601053int);
    primes::lemma_square(n, z, 512, 1741238373790734165276792884374561543758314828808135130497238787665395601053int, 23742353948330808019316511830601700476157065930332715549048460604277611443280int);
    primes::lemma_square(n, z, 1024, 23742353948330808019316511830601700476157065930332715549048460604277611443280int, 2095012359923450174901864870051868117908165457306906180047936153240862409747int);
    primes::lemma_square(n, z, 2048, 2095012359923450174901864870051868117908165457306906180047936153240862409747int, 11721039313012387933861353830749489271763273499470579900985461546509774571625int);
    primes::lemma_square(n, z, 4096, 11721039313012387933861353830749489271763273499470579900985461546509774571625int, 24765410221021998114056579869882687256732934083230951195503663650676864026780int);
    primes::lemma_square(n, z, 8192, 24765410221021998114056579869882687256732934083230951195503663650676864026780int, 11210613499189137433890860267777244133646082437103805267688089100263657462004int);
    primes::lemma_square(n, z, 16384, 11210613499189137433890860267777244133646082437103805267688089100263657462004int, 7164276914317930276599276463669632978808040252946251374608613133198557740551int);
    primes::lemma_square(n, z, 32768, 7164276914317930276599276463669632978808040252946251374608613133198557740551int, 25495844600287922982375847825735118051357973597388778743844222198976976347033int);
    primes::lemma_square(n, z, 65536, 25495844600287922982375847825735118051357973597388778743844222198976976347033int, 8617115995329920206430890306720892888304016404053385418898020543807777256037int);
    primes::lemma_square(n, z, 131072, 8617115995329920206430890306720892888304016404053385418898020543807777256037int, 13720502009405270468270247285101677286753189198487843249698478072631298866919int);
    primes::lemma_square(n, z, 262144, 13720502009405270468270247285101677286753189198487843249698478072631298866919int, 5567937543998984163587088440767478500966827595555460377548789436081190518055int);
    primes::lemma_square(n, z, 524288, 5567937543998984163587088440767478500966827595555460377548789436081190518055int, 5941528852119656486547009376921379859061890492327158217287419805481663145328int);
    primes::lemma_square(n, z, 1048576, 5941528852119656486547009376921379859061890492327158217287419805481663145328int, 26338948342977721520891988711654847344182798231233709352645110692825450890678int);
    primes::lemma_square(n, z, 2097152, 26338948342977721520891988711654847344182798231233709352645110692825450890678int, 6029840605409716029039145981374630916618202962808146989375357992541758151786int);
    primes::lemma_square(n, z, 4194304, 6029840605409716029039145981374630916618202962808146989375357992541758151786int, 4732856566951780977490840117445510418141068801563323774232132705307561697797int);
    primes::lemma_square(n, z, 8388608, 4732856566951780977490840117445510418141068801563323774232132705307561697797int, 4752082627567591492616531505088555851849790050702598907433266709543862595952int);
    primes::lemma_square(n, z, 16777216, 4752082627567591492616531505088555851849790050702598907433266709543862595952int, 4867128723518192607816771421235245851793570716687419434502469644371358085568int);
    primes::lemma_square(n, z, 33554432, 4867128723518192607816771421235245851793570716687419434502469644371358085568int, 25961116482043150460867137388278539457567790903019167062834835943706184420729int);
    primes::lemma_square(n, z, 67108864, 25961116482043150460867137388278539457567790903019167062834835943706184420729int, 27501409206494711691355527580883116883093225617019546582005012710742353445868int);
    primes::lemma_square(n, z, 134217728, 27501409206494711691355527580883116883093225617019546582005012710742353445868int, 11481482255349729633518114981653122293104571379370059034730689000824048736923int);
    primes::lemma_square(n, z, 268435456, 11481482255349729633518114981653122293104571379370059034730689000824048736923int, 26389178552394651245246837090492411671330744266237564696174733440959711379620int);
    primes::lemma_square(n, z, 536870912, 26389178552394651245246837090492411671330744266237564696174733440959711379620int, 24682508875525884897641270952488416149830453149035712389703207095981135804695int);
    primes::lemma_square(n, z, 1073741824, 24682508875525884897641270952488416149830453149035712389703207095981135804695int, 28948022309329048855892746252171976963363056481941647379679742748393362948096int);
}

/// The modulus of the Pallas scalars is prime.
pub proof fn law_pallas_modulus_is_prime()
    ensures
        primes::is_prime(pallas::pallas_modulus()),
{
    let n = pallas::pallas_modulus();
    lemma_prime_10427374428728808478656897599072717();
    lemma_order_pallas();
    lemma_two_order_pallas();
    assert forall|q: int| primes::is_prime(q) && #[trigger] (n % q) == 0 implies (q - 1)
        % 44785232154536915268878889192838239440863232int == 0 by {
        assert(q != 2) by {
            assert(n % 2 == 1);
        }
        primes::lemma_two_order_of_divisor(
            n,
            20761624379169977859705911634190121761503565370703356079647768903521299517535int,
            q,
        );
        primes::lemma_order_of_divisor(
            n,
            21577701278964860764616844091496499530098850519810142228219162002401576116285int,
            10427374428728808478656897599072717int,
            17418406443545080562153166719893032899920793834068238320049535831780760938356int,
            q,
        );
        primes::lemma_multiple_of_both(
            q - 1,
            0x1_0000_0000,
            10427374428728808478656897599072717int,
        );
    }
    primes::lemma_pocklington(n, 44785232154536915268878889192838239440863232int);
}

} // verus!
