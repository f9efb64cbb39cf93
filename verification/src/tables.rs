//! The fixed domain parameters of the Bar function: the 27 radix moduli of
//! the mixed-radix system, the canonical residues of their modular inverses,
//! and the 659-entry substitution box. These tables are build-time
//! configuration; replacing them would change the hash function itself.
use crate::field::{field_modulus, limbs_val, Fe};
use vstd::prelude::*;

verus! {

/// The 27 radix moduli of the decomposition, in the order the digits are
/// produced: digit k is the remainder by `DECOMPOSITION_S_I[k]`.
pub const DECOMPOSITION_S_I: [u64; 27] = [
    693,
    696,
    694,
    668,
    679,
    695,
    691,
    693,
    700,
    688,
    700,
    694,
    701,
    694,
    699,
    701,
    701,
    701,
    695,
    698,
    697,
    703,
    702,
    691,
    688,
    703,
    679,
];

/// Canonical residues of the modular inverses of the radix moduli:
/// `INVERSES_S_I[k]` denotes the inverse of `DECOMPOSITION_S_I[k]` in the
/// scalar field.
pub const INVERSES_S_I: [[u64; 4]; 27] = [
    [7240280501832359546, 13715601636316729939, 6548370270686739803, 783518897352365379],
    [1086661647137803582, 10436645099135287615, 13692320992062857090, 1716311653596862438],
    [13529384338649547225, 4812429279102651085, 910612631218334435, 6993362097044445351],
    [911291248848131348, 15971740128293065012, 5672229231561588898, 587747443704834011],
    [4156630106977336186, 7518331959761343198, 3146408845708906355, 1833098692283067678],
    [8466922815624542701, 7356282474826980193, 5166751235385261937, 7428019308128100287],
    [9156632726969650709, 16188262793652927897, 5880254591294900344, 8293071730235328879],
    [7240280501832359546, 13715601636316729939, 6548370270686739803, 783518897352365379],
    [9197019545179784666, 17459147192394474573, 7921620400695345751, 274472696810974764],
    [3458764511529475525, 6516694802325219555, 5186463117217939521, 4456018441022460628],
    [9197019545179784666, 17459147192394474573, 7921620400695345751, 274472696810974764],
    [13529384338649547225, 4812429279102651085, 910612631218334435, 6993362097044445351],
    [1684153520548085200, 15979949833894861189, 5317356929875076458, 7805354554849093189],
    [13529384338649547225, 4812429279102651085, 910612631218334435, 6993362097044445351],
    [1319509589220513344, 1780769910442519997, 14599565103863541442, 2282577568179842383],
    [1684153520548085200, 15979949833894861189, 5317356929875076458, 7805354554849093189],
    [1684153520548085200, 15979949833894861189, 5317356929875076458, 7805354554849093189],
    [1684153520548085200, 15979949833894861189, 5317356929875076458, 7805354554849093189],
    [8466922815624542701, 7356282474826980193, 5166751235385261937, 7428019308128100287],
    [5364884017677383898, 10699790735998891645, 2544010603370275269, 7312319199330628301],
    [18420278155535860441, 12016568679236453432, 3615802321261807614, 2492871602250509993],
    [3070084004958536566, 15709509543388168190, 1050306308935014675, 3148907493254735531],
    [6910959672839522917, 10120549854092939326, 8593366784413104564, 2915401183146424631],
    [9156632726969650709, 16188262793652927897, 5880254591294900344, 8293071730235328879],
    [3458764511529475525, 6516694802325219555, 5186463117217939521, 4456018441022460628],
    [3070084004958536566, 15709509543388168190, 1050306308935014675, 3148907493254735531],
    [4156630106977336186, 7518331959761343198, 3146408845708906355, 1833098692283067678],
];

/// The substitution box: a fixed table over the digit domain, applied to
/// digit values below 659 and bypassed above.
pub const SBOX_BLS: [u128; 659] = [
    15,
    187,
    186,
    168,
    493,
    102,
    296,
    11,
    164,
    155,
    527,
    103,
    192,
    589,
    543,
    450,
    647,
    72,
    343,
    386,
    279,
    616,
    225,
    140,
    313,
    586,
    276,
    57,
    162,
    68,
    179,
    445,
    418,
    364,
    46,
    591,
    541,
    218,
    0,
    437,
    618,
    157,
    657,
    49,
    120,
    469,
    142,
    325,
    183,
    123,
    23,
    468,
    619,
    217,
    472,
    226,
    212,
    406,
    4,
    499,
    182,
    51,
    141,
    86,
    596,
    70,
    149,
    355,
    351,
    245,
    52,
    193,
    311,
    244,
    375,
    300,
    399,
    590,
    143,
    24,
    190,
    517,
    208,
    539,
    544,
    236,
    393,
    34,
    203,
    60,
    151,
    243,
    542,
    299,
    368,
    289,
    272,
    567,
    280,
    599,
    625,
    341,
    462,
    509,
    153,
    374,
    213,
    477,
    310,
    347,
    572,
    71,
    579,
    158,
    412,
    587,
    63,
    172,
    640,
    173,
    101,
    439,
    5,
    92,
    501,
    500,
    330,
    633,
    630,
    328,
    488,
    356,
    89,
    224,
    383,
    96,
    643,
    585,
    422,
    41,
    295,
    642,
    571,
    247,
    239,
    600,
    561,
    319,
    480,
    570,
    652,
    134,
    620,
    484,
    525,
    333,
    177,
    209,
    8,
    211,
    402,
    478,
    574,
    148,
    365,
    83,
    635,
    44,
    646,
    204,
    414,
    413,
    398,
    449,
    363,
    588,
    65,
    617,
    658,
    126,
    178,
    536,
    624,
    201,
    513,
    506,
    384,
    336,
    382,
    348,
    223,
    316,
    629,
    88,
    18,
    278,
    287,
    524,
    257,
    421,
    639,
    424,
    452,
    511,
    564,
    538,
    214,
    514,
    307,
    31,
    93,
    471,
    104,
    528,
    234,
    352,
    255,
    534,
    580,
    113,
    360,
    526,
    614,
    532,
    603,
    537,
    1,
    370,
    121,
    430,
    32,
    417,
    426,
    391,
    644,
    358,
    206,
    3,
    504,
    13,
    557,
    444,
    284,
    584,
    39,
    251,
    176,
    508,
    94,
    156,
    33,
    273,
    496,
    246,
    321,
    58,
    21,
    165,
    638,
    436,
    10,
    145,
    194,
    498,
    267,
    292,
    90,
    497,
    505,
    510,
    80,
    435,
    303,
    42,
    533,
    529,
    453,
    329,
    428,
    35,
    337,
    269,
    229,
    297,
    85,
    562,
    440,
    357,
    95,
    50,
    559,
    446,
    656,
    606,
    457,
    459,
    390,
    59,
    611,
    306,
    623,
    188,
    650,
    582,
    170,
    249,
    16,
    380,
    230,
    130,
    169,
    138,
    612,
    207,
    227,
    598,
    47,
    483,
    73,
    184467440737095516227,
    106,
    175,
    655,
    22,
    77,
    133,
    283,
    377,
    112,
    232,
    429,
    117,
    111,
    332,
    6,
    324,
    7,
    409,
    302,
    260,
    216,
    320,
    166,
    475,
    465,
    45,
    366,
    519,
    335,
    200,
    215,
    205,
    262,
    419,
    147,
    237,
    282,
    359,
    174,
    379,
    441,
    551,
    473,
    605,
    427,
    474,
    387,
    84,
    171,
    222,
    37,
    565,
    48,
    549,
    161,
    521,
    566,
    518,
    568,
    403,
    597,
    397,
    154,
    649,
    53,
    522,
    416,
    240,
    372,
    645,
    261,
    314,
    309,
    395,
    373,
    20,
    119,
    27,
    608,
    340,
    609,
    361,
    503,
    241,
    602,
    30,
    275,
    569,
    423,
    454,
    150,
    621,
    415,
    344,
    535,
    411,
    540,
    199,
    442,
    371,
    404,
    210,
    322,
    432,
    492,
    560,
    250,
    132,
    627,
    233,
    202,
    304,
    641,
    338,
    74,
    575,
    408,
    425,
    291,
    135,
    318,
    601,
    159,
    489,
    556,
    385,
    548,
    554,
    81,
    362,
    108,
    270,
    405,
    136,
    576,
    55,
    389,
    354,
    604,
    388,
    97,
    198,
    317,
    334,
    458,
    491,
    259,
    583,
    369,
    129,
    546,
    87,
    327,
    266,
    401,
    550,
    69,
    274,
    615,
    400,
    181,
    353,
    196,
    456,
    595,
    420,
    122,
    392,
    185,
    516,
    466,
    476,
    75,
    235,
    530,
    448,
    594,
    378,
    455,
    447,
    577,
    285,
    99,
    558,
    653,
    410,
    461,
    160,
    331,
    290,
    563,
    613,
    219,
    394,
    29,
    552,
    9,
    189,
    298,
    137,
    56,
    636,
    12,
    581,
    2,
    109,
    339,
    127,
    36,
    443,
    573,
    523,
    451,
    479,
    286,
    28,
    116,
    312,
    628,
    545,
    54,
    82,
    651,
    482,
    131,
    26,
    396,
    271,
    593,
    124,
    107,
    515,
    114,
    407,
    654,
    268,
    342,
    277,
    254,
    14,
    79,
    191,
    43,
    252,
    512,
    256,
    220,
    381,
    66,
    481,
    19,
    228,
    367,
    487,
    434,
    349,
    144,
    460,
    91,
    495,
    78,
    195,
    490,
    67,
    486,
    64,
    105,
    467,
    231,
    507,
    376,
    248,
    631,
    520,
    464,
    221,
    433,
    622,
    531,
    197,
    61,
    163,
    98,
    648,
    146,
    238,
    494,
    125,
    76,
    242,
    463,
    326,
    38,
    152,
    438,
    345,
    637,
    40,
    17,
    281,
    323,
    110,
    118,
    578,
    139,
    315,
    115,
    62,
    470,
    293,
    265,
    258,
    553,
    301,
    610,
    555,
    305,
    634,
    308,
    626,
    180,
    253,
    350,
    502,
    184,
    431,
    294,
    264,
    288,
    632,
    25,
    607,
    485,
    592,
    263,
    128,
    547,
    100,
    346,
];

/// The k-th radix modulus as a natural number.
#[verifier::opaque]
pub open spec fn radix(k: int) -> nat {
    DECOMPOSITION_S_I[k] as nat
}

/// The value of the k-th precomputed inverse.
#[verifier::opaque]
pub open spec fn inv_val(k: int) -> nat {
    limbs_val(INVERSES_S_I[k])
}

/// What the substitution box does to one digit value: the table entry below
/// 659, the value itself above.
#[verifier::opaque]
pub open spec fn sbox_spec(v: nat) -> nat {
    if v < 659 {
        SBOX_BLS[v as int] as nat
    } else {
        v
    }
}

/// The radix modulus bumped to the next even number: the bound that the
/// per-digit range check enforces.
pub open spec fn bumped_radix(k: int) -> nat {
    if radix(k) % 2 == 1 {
        radix(k) + 1
    } else {
        radix(k)
    }
}

/// The product of the radix moduli from position k on.
pub open spec fn radix_cap(k: int) -> nat
    decreases 27 - k when k <= 27
{
    if k >= 27 {
        1
    } else {
        radix(k) * radix_cap(k + 1)
    }
}

/// Every radix modulus lies between 668 and 703.
pub proof fn lemma_radix_range(k: int)
    requires
        0 <= k < 27,
    ensures
        668 <= radix(k) <= 703,
{
    reveal(radix);
    if k == 0 {
        assert(DECOMPOSITION_S_I[0] == 693);
    } else if k == 1 {
        assert(DECOMPOSITION_S_I[1] == 696);
    } else if k == 2 {
        assert(DECOMPOSITION_S_I[2] == 694);
    } else if k == 3 {
        assert(DECOMPOSITION_S_I[3] == 668);
    } else if k == 4 {
        assert(DECOMPOSITION_S_I[4] == 679);
    } else if k == 5 {
        assert(DECOMPOSITION_S_I[5] == 695);
    } else if k == 6 {
        assert(DECOMPOSITION_S_I[6] == 691);
    } else if k == 7 {
        assert(DECOMPOSITION_S_I[7] == 693);
    } else if k == 8 {
        assert(DECOMPOSITION_S_I[8] == 700);
    } else if k == 9 {
        assert(DECOMPOSITION_S_I[9] == 688);
    } else if k == 10 {
        assert(DECOMPOSITION_S_I[10] == 700);
    } else if k == 11 {
        assert(DECOMPOSITION_S_I[11] == 694);
    } else if k == 12 {
        assert(DECOMPOSITION_S_I[12] == 701);
    } else if k == 13 {
        assert(DECOMPOSITION_S_I[13] == 694);
    } else if k == 14 {
        assert(DECOMPOSITION_S_I[14] == 699);
    } else if k == 15 {
        assert(DECOMPOSITION_S_I[15] == 701);
    } else if k == 16 {
        assert(DECOMPOSITION_S_I[16] == 701);
    } else if k == 17 {
        assert(DECOMPOSITION_S_I[17] == 701);
    } else if k == 18 {
        assert(DECOMPOSITION_S_I[18] == 695);
    } else if k == 19 {
        assert(DECOMPOSITION_S_I[19] == 698);
    } else if k == 20 {
        assert(DECOMPOSITION_S_I[20] == 697);
    } else if k == 21 {
        assert(DECOMPOSITION_S_I[21] == 703);
    } else if k == 22 {
        assert(DECOMPOSITION_S_I[22] == 702);
    } else if k == 23 {
        assert(DECOMPOSITION_S_I[23] == 691);
    } else if k == 24 {
        assert(DECOMPOSITION_S_I[24] == 688);
    } else if k == 25 {
        assert(DECOMPOSITION_S_I[25] == 703);
    } else if k == 26 {
        assert(DECOMPOSITION_S_I[26] == 679);
    }
}

/// Each table inverse really inverts its radix modulus in the field.
pub proof fn lemma_radix_inverse(k: int)
    requires
        0 <= k < 27,
    ensures
        (radix(k) * inv_val(k)) % field_modulus() == 1,
{
    reveal(radix);
    reveal(inv_val);
    if k == 0 {
        assert(radix(0) == 693);
        assert(inv_val(0) == 4918227830278791314811115632080934746680932052719042508613618781379520601722);
        lemma_inv_check_0();
    } else if k == 1 {
        assert(radix(1) == 696);
        assert(inv_val(1) == 10773462859257248905978486914756599302858834780999212943437245968521863662910);
        lemma_inv_check_1();
    } else if k == 2 {
        assert(radix(2) == 694);
        assert(inv_val(2) == 43898045355545124882650053653106694743080995681277460482611996692599878484441);
        lemma_inv_check_2();
    } else if k == 3 {
        assert(radix(3) == 668);
        assert(inv_val(3) == 3689350498848699030739586532761587416723736478330537391710137663019630712084);
        lemma_inv_check_3();
    } else if k == 4 {
        assert(radix(4) == 679);
        assert(inv_val(4) == 11506546982465099236285292099734475566739163950778524352824661482018922822522);
        lemma_inv_check_4();
    } else if k == 5 {
        assert(radix(5) == 695);
        assert(inv_val(5) == 46626432889536670095393818178502053075816922942915223272473469174909414636013);
        lemma_inv_check_5();
    } else if k == 6 {
        assert(radix(6) == 691);
        assert(inv_val(6) == 52056454949546406177859840793944388660862111454937712802179609071140183346709);
        lemma_inv_check_6();
    } else if k == 7 {
        assert(radix(7) == 693);
        assert(inv_val(7) == 4918227830278791314811115632080934746680932052719042508613618781379520601722);
        lemma_inv_check_7();
    } else if k == 8 {
        assert(radix(8) == 700);
        assert(inv_val(8) == 1722893041468431972896140045268967448952689582160193814171263071569410524634);
        lemma_inv_check_8();
    } else if k == 9 {
        assert(radix(9) == 688);
        assert(inv_val(9) == 27970881089057139398193780183872455614000629022810527733859800498368400137669);
        lemma_inv_check_9();
    } else if k == 10 {
        assert(radix(10) == 700);
        assert(inv_val(10) == 1722893041468431972896140045268967448952689582160193814171263071569410524634);
        lemma_inv_check_10();
    } else if k == 11 {
        assert(radix(11) == 694);
        assert(inv_val(11) == 43898045355545124882650053653106694743080995681277460482611996692599878484441);
        lemma_inv_check_11();
    } else if k == 12 {
        assert(radix(12) == 701);
        assert(inv_val(12) == 48995004621551575982936191202370624284860644633160631631676742437175136484816);
        lemma_inv_check_12();
    } else if k == 13 {
        assert(radix(13) == 694);
        assert(inv_val(13) == 43898045355545124882650053653106694743080995681277460482611996692599878484441);
        lemma_inv_check_13();
    } else if k == 14 {
        assert(radix(14) == 699);
        assert(inv_val(14) == 14327971614376398256902029237572989234619306906438882437936049802129140209216);
        lemma_inv_check_14();
    } else if k == 15 {
        assert(radix(15) == 701);
        assert(inv_val(15) == 48995004621551575982936191202370624284860644633160631631676742437175136484816);
        lemma_inv_check_15();
    } else if k == 16 {
        assert(radix(16) == 701);
        assert(inv_val(16) == 48995004621551575982936191202370624284860644633160631631676742437175136484816);
        lemma_inv_check_16();
    } else if k == 17 {
        assert(radix(17) == 701);
        assert(inv_val(17) == 48995004621551575982936191202370624284860644633160631631676742437175136484816);
        lemma_inv_check_17();
    } else if k == 18 {
        assert(radix(18) == 695);
        assert(inv_val(18) == 46626432889536670095393818178502053075816922942915223272473469174909414636013);
        lemma_inv_check_18();
    } else if k == 19 {
        assert(radix(19) == 698);
        assert(inv_val(19) == 45900171535819630921121159671205766657348033779115167205746182615562282383578);
        lemma_inv_check_19();
    } else if k == 20 {
        assert(radix(20) == 697);
        assert(inv_val(20) == 15648008660582851678228307067005281053428457561133068388954893844457998402265);
        lemma_inv_check_20();
    } else if k == 21 {
        assert(radix(21) == 703);
        assert(inv_val(21) == 19766012690481423153703629067808365500694162749132039862005646593860204856182);
        lemma_inv_check_21();
    } else if k == 22 {
        assert(radix(22) == 702);
        assert(inv_val(22) == 18300269826076804369607829664537837080105677154742551661734895130320445000293);
        lemma_inv_check_22();
    } else if k == 23 {
        assert(radix(23) == 691);
        assert(inv_val(23) == 52056454949546406177859840793944388660862111454937712802179609071140183346709);
        lemma_inv_check_23();
    } else if k == 24 {
        assert(radix(24) == 688);
        assert(inv_val(24) == 27970881089057139398193780183872455614000629022810527733859800498368400137669);
        lemma_inv_check_24();
    } else if k == 25 {
        assert(radix(25) == 703);
        assert(inv_val(25) == 19766012690481423153703629067808365500694162749132039862005646593860204856182);
        lemma_inv_check_25();
    } else if k == 26 {
        assert(radix(26) == 679);
        assert(inv_val(26) == 11506546982465099236285292099734475566739163950778524352824661482018922822522);
        lemma_inv_check_26();
    }
}

/// A product that exceeds a multiple of the modulus by exactly one reduces
/// to one.
proof fn lemma_mul_inv_unit(sv: nat, iv: nat, q: nat)
    requires
        sv * iv == q * field_modulus() + 1,
    ensures
        (sv * iv) % field_modulus() == 1,
{
    vstd::arithmetic::div_mod::lemma_mod_multiples_vanish(
        q as int,
        1,
        field_modulus() as int,
    );
    vstd::arithmetic::div_mod::lemma_small_mod(1, field_modulus());
}

proof fn lemma_inv_check_0()
    ensures
        (693nat * 4918227830278791314811115632080934746680932052719042508613618781379520601722nat) % field_modulus() == 1,
{
    lemma_mul_inv_unit(693nat, 4918227830278791314811115632080934746680932052719042508613618781379520601722nat, 65nat);
}

proof fn lemma_inv_check_1()
    ensures
        (696nat * 10773462859257248905978486914756599302858834780999212943437245968521863662910nat) % field_modulus() == 1,
{
    lemma_mul_inv_unit(696nat, 10773462859257248905978486914756599302858834780999212943437245968521863662910nat, 143nat);
}

proof fn lemma_inv_check_2()
    ensures
        (694nat * 43898045355545124882650053653106694743080995681277460482611996692599878484441nat) % field_modulus() == 1,
{
    lemma_mul_inv_unit(694nat, 43898045355545124882650053653106694743080995681277460482611996692599878484441nat, 581nat);
}

proof fn lemma_inv_check_3()
    ensures
        (668nat * 3689350498848699030739586532761587416723736478330537391710137663019630712084nat) % field_modulus() == 1,
{
    lemma_mul_inv_unit(668nat, 3689350498848699030739586532761587416723736478330537391710137663019630712084nat, 47nat);
}

proof fn lemma_inv_check_4()
    ensures
        (679nat * 11506546982465099236285292099734475566739163950778524352824661482018922822522nat) % field_modulus() == 1,
{
    lemma_mul_inv_unit(679nat, 11506546982465099236285292099734475566739163950778524352824661482018922822522nat, 149nat);
}

proof fn lemma_inv_check_5()
    ensures
        (695nat * 46626432889536670095393818178502053075816922942915223272473469174909414636013nat) % field_modulus() == 1,
{
    lemma_mul_inv_unit(695nat, 46626432889536670095393818178502053075816922942915223272473469174909414636013nat, 618nat);
}

proof fn lemma_inv_check_6()
    ensures
        (691nat * 52056454949546406177859840793944388660862111454937712802179609071140183346709nat) % field_modulus() == 1,
{
    lemma_mul_inv_unit(691nat, 52056454949546406177859840793944388660862111454937712802179609071140183346709nat, 686nat);
}

proof fn lemma_inv_check_7()
    ensures
        (693nat * 4918227830278791314811115632080934746680932052719042508613618781379520601722nat) % field_modulus() == 1,
{
    lemma_mul_inv_unit(693nat, 4918227830278791314811115632080934746680932052719042508613618781379520601722nat, 65nat);
}

proof fn lemma_inv_check_8()
    ensures
        (700nat * 1722893041468431972896140045268967448952689582160193814171263071569410524634nat) % field_modulus() == 1,
{
    lemma_mul_inv_unit(700nat, 1722893041468431972896140045268967448952689582160193814171263071569410524634nat, 23nat);
}

proof fn lemma_inv_check_9()
    ensures
        (688nat * 27970881089057139398193780183872455614000629022810527733859800498368400137669nat) % field_modulus() == 1,
{
    lemma_mul_inv_unit(688nat, 27970881089057139398193780183872455614000629022810527733859800498368400137669nat, 367nat);
}

proof fn lemma_inv_check_10()
    ensures
        (700nat * 1722893041468431972896140045268967448952689582160193814171263071569410524634nat) % field_modulus() == 1,
{
    lemma_mul_inv_unit(700nat, 1722893041468431972896140045268967448952689582160193814171263071569410524634nat, 23nat);
}

proof fn lemma_inv_check_11()
    ensures
        (694nat * 43898045355545124882650053653106694743080995681277460482611996692599878484441nat) % field_modulus() == 1,
{
    lemma_mul_inv_unit(694nat, 43898045355545124882650053653106694743080995681277460482611996692599878484441nat, 581nat);
}

proof fn lemma_inv_check_12()
    ensures
        (701nat * 48995004621551575982936191202370624284860644633160631631676742437175136484816nat) % field_modulus() == 1,
{
    lemma_mul_inv_unit(701nat, 48995004621551575982936191202370624284860644633160631631676742437175136484816nat, 655nat);
}

proof fn lemma_inv_check_13()
    ensures
        (694nat * 43898045355545124882650053653106694743080995681277460482611996692599878484441nat) % field_modulus() == 1,
{
    lemma_mul_inv_unit(694nat, 43898045355545124882650053653106694743080995681277460482611996692599878484441nat, 581nat);
}

proof fn lemma_inv_check_14()
    ensures
        (699nat * 14327971614376398256902029237572989234619306906438882437936049802129140209216nat) % field_modulus() == 1,
{
    lemma_mul_inv_unit(699nat, 14327971614376398256902029237572989234619306906438882437936049802129140209216nat, 191nat);
}

proof fn lemma_inv_check_15()
    ensures
        (701nat * 48995004621551575982936191202370624284860644633160631631676742437175136484816nat) % field_modulus() == 1,
{
    lemma_mul_inv_unit(701nat, 48995004621551575982936191202370624284860644633160631631676742437175136484816nat, 655nat);
}

proof fn lemma_inv_check_16()
    ensures
        (701nat * 48995004621551575982936191202370624284860644633160631631676742437175136484816nat) % field_modulus() == 1,
{
    lemma_mul_inv_unit(701nat, 48995004621551575982936191202370624284860644633160631631676742437175136484816nat, 655nat);
}

proof fn lemma_inv_check_17()
    ensures
        (701nat * 48995004621551575982936191202370624284860644633160631631676742437175136484816nat) % field_modulus() == 1,
{
    lemma_mul_inv_unit(701nat, 48995004621551575982936191202370624284860644633160631631676742437175136484816nat, 655nat);
}

proof fn lemma_inv_check_18()
    ensures
        (695nat * 46626432889536670095393818178502053075816922942915223272473469174909414636013nat) % field_modulus() == 1,
{
    lemma_mul_inv_unit(695nat, 46626432889536670095393818178502053075816922942915223272473469174909414636013nat, 618nat);
}

proof fn lemma_inv_check_19()
    ensures
        (698nat * 45900171535819630921121159671205766657348033779115167205746182615562282383578nat) % field_modulus() == 1,
{
    lemma_mul_inv_unit(698nat, 45900171535819630921121159671205766657348033779115167205746182615562282383578nat, 611nat);
}

proof fn lemma_inv_check_20()
    ensures
        (697nat * 15648008660582851678228307067005281053428457561133068388954893844457998402265nat) % field_modulus() == 1,
{
    lemma_mul_inv_unit(697nat, 15648008660582851678228307067005281053428457561133068388954893844457998402265nat, 208nat);
}

proof fn lemma_inv_check_21()
    ensures
        (703nat * 19766012690481423153703629067808365500694162749132039862005646593860204856182nat) % field_modulus() == 1,
{
    lemma_mul_inv_unit(703nat, 19766012690481423153703629067808365500694162749132039862005646593860204856182nat, 265nat);
}

proof fn lemma_inv_check_22()
    ensures
        (702nat * 18300269826076804369607829664537837080105677154742551661734895130320445000293nat) % field_modulus() == 1,
{
    lemma_mul_inv_unit(702nat, 18300269826076804369607829664537837080105677154742551661734895130320445000293nat, 245nat);
}

proof fn lemma_inv_check_23()
    ensures
        (691nat * 52056454949546406177859840793944388660862111454937712802179609071140183346709nat) % field_modulus() == 1,
{
    lemma_mul_inv_unit(691nat, 52056454949546406177859840793944388660862111454937712802179609071140183346709nat, 686nat);
}

proof fn lemma_inv_check_24()
    ensures
        (688nat * 27970881089057139398193780183872455614000629022810527733859800498368400137669nat) % field_modulus() == 1,
{
    lemma_mul_inv_unit(688nat, 27970881089057139398193780183872455614000629022810527733859800498368400137669nat, 367nat);
}

proof fn lemma_inv_check_25()
    ensures
        (703nat * 19766012690481423153703629067808365500694162749132039862005646593860204856182nat) % field_modulus() == 1,
{
    lemma_mul_inv_unit(703nat, 19766012690481423153703629067808365500694162749132039862005646593860204856182nat, 265nat);
}

proof fn lemma_inv_check_26()
    ensures
        (679nat * 11506546982465099236285292099734475566739163950778524352824661482018922822522nat) % field_modulus() == 1,
{
    lemma_mul_inv_unit(679nat, 11506546982465099236285292099734475566739163950778524352824661482018922822522nat, 149nat);
}
/// The full radix product covers the field: every proper residue
/// decomposes into 27 digits within their radix bounds.
pub proof fn lemma_cap_covers_field()
    ensures
        field_modulus() <= radix_cap(0),
{
    reveal(radix);
    assert(radix_cap(27) == 1);
    assert(radix_cap(26) == 679) by {
        assert(radix(26) == 679);
    }
    assert(radix_cap(25) == 477337) by {
        assert(radix(25) == 703);
    }
    assert(radix_cap(24) == 328407856) by {
        assert(radix(24) == 688);
    }
    assert(radix_cap(23) == 226929828496) by {
        assert(radix(23) == 691);
    }
    assert(radix_cap(22) == 159304739604192) by {
        assert(radix(22) == 702);
    }
    assert(radix_cap(21) == 111991231941746976) by {
        assert(radix(21) == 703);
    }
    assert(radix_cap(20) == 78057888663397642272) by {
        assert(radix(20) == 697);
    }
    assert(radix_cap(19) == 54484406287051554305856) by {
        assert(radix(19) == 698);
    }
    assert(radix_cap(18) == 37866662369500830242569920) by {
        assert(radix(18) == 695);
    }
    assert(radix_cap(17) == 26544530321020082000041513920) by {
        assert(radix(17) == 701);
    }
    assert(radix_cap(16) == 18607715755035077482029101257920) by {
        assert(radix(16) == 701);
    }
    assert(radix_cap(15) == 13044008744279589314902399981801920) by {
        assert(radix(15) == 701);
    }
    assert(radix_cap(14) == 9117762112251432931116777587279542080) by {
        assert(radix(14) == 699);
    }
    assert(radix_cap(13) == 6327726905902494454195043645572002203520) by {
        assert(radix(13) == 694);
    }
    assert(radix_cap(12) == 4435736561037648612390725595545973544667520) by {
        assert(radix(12) == 701);
    }
    assert(radix_cap(11) == 3078401173360128136999163563308905639999258880) by {
        assert(radix(11) == 694);
    }
    assert(radix_cap(10) == 2154880821352089695899414494316233947999481216000) by {
        assert(radix(10) == 700);
    }
    assert(radix_cap(9) == 1482558005090237710778797172089568956223643076608000) by {
        assert(radix(9) == 688);
    }
    assert(radix_cap(8) == 1037790603563166397545158020462698269356550153625600000) by {
        assert(radix(8) == 700);
    }
    assert(radix_cap(7) == 719188888269274313498794508180649900664089256462540800000) by {
        assert(radix(7) == 693);
    }
    assert(radix_cap(6) == 496959521794068550627667005152829081358885676215615692800000) by {
        assert(radix(6) == 691);
    }
    assert(radix_cap(5) == 345386867646877642686228568581216211544425544969852906496000000) by {
        assert(radix(5) == 695);
    }
    assert(radix_cap(4) == 234517683132229919383949198066645807638664945034530123510784000000) by {
        assert(radix(4) == 679);
    }
    assert(radix_cap(3) == 156657812332329586148478064308519399502628183283066122505203712000000) by {
        assert(radix(3) == 668);
    }
    assert(radix_cap(2) == 108720521758636732787043776630112463254823959198447889018611376128000000) by {
        assert(radix(2) == 694);
    }
    assert(radix_cap(1) == 75669483144011166019782468534558274425357475602119730756953517785088000000) by {
        assert(radix(1) == 696);
    }
    assert(radix_cap(0) == 52438951818799738051709250694448884176772730592268973414568787825065984000000) by {
        assert(radix(0) == 693);
    }
}

/// Bridge from the exec table to the opaque radix function.
pub proof fn lemma_radix_entry(k: int)
    requires
        0 <= k < 27,
    ensures
        DECOMPOSITION_S_I[k] as nat == radix(k),
{
    reveal(radix);
}

/// Bridge from the exec inverse table to the opaque inverse function.
pub proof fn lemma_inv_entry(k: int)
    requires
        0 <= k < 27,
    ensures
        limbs_val(INVERSES_S_I[k]) == inv_val(k),
{
    reveal(inv_val);
}

/// What the substitution box does below its domain bound.
pub proof fn lemma_sbox_entry(v: nat)
    requires
        v < 659,
    ensures
        sbox_spec(v) == SBOX_BLS[v as int] as nat,
{
    reveal(sbox_spec);
}

/// What the substitution box does at and above its domain bound.
pub proof fn lemma_sbox_passthrough(v: nat)
    requires
        v >= 659,
    ensures
        sbox_spec(v) == v,
{
    reveal(sbox_spec);
}

/// What the substitution box assigns to one witness value: the table entry
/// below the domain bound, the value itself above it.
pub fn sbox_value(v: &Fe) -> (r: Fe)
    requires
        v.wf(),
    ensures
        r.val() == sbox_spec(v.val()),
        r.wf(),
{
    if v.limbs[1] == 0 && v.limbs[2] == 0 && v.limbs[3] == 0 && v.limbs[0] < 659 {
        proof {
            assert(v.val() == v.limbs[0]);
            lemma_sbox_entry(v.val());
        }
        let entry: u128 = SBOX_BLS[v.limbs[0] as usize];
        Fe::from_u128(entry)
    } else {
        proof {
            if v.limbs[1] == 0 && v.limbs[2] == 0 && v.limbs[3] == 0 {
                assert(v.val() == v.limbs[0]);
            } else {
                assert(v.val() >= 0x10000000000000000nat);
            }
            lemma_sbox_passthrough(v.val());
        }
        *v
    }
}

} // verus!
