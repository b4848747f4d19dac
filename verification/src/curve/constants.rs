//! The constants of the two curves and their base points.

use crate::curve::edwards::extended::ExtendedPoint;
use crate::curve::group_law::{edwards_d, edwards_on_curve, twisted_d, twisted_on_curve, Coordinates};
use crate::curve::twedwards::extended::ExtendedPoint as TwistedExtendedPoint;
use crate::field::element::{field_modulus, limbs_value, FieldElement28};
use vstd::prelude::*;

verus! {

/// The constant `d = -39081` of the Edwards curve.
pub fn edwards_d_element() -> (r: FieldElement28)
    ensures
        r.value() == edwards_d(),
        r.is_weak(),
{
    proof {
        reveal(limbs_value);
    }
    FieldElement28(
        [
            268396374,
            268435455,
            268435455,
            268435455,
            268435455,
            268435455,
            268435455,
            268435455,
            268435454,
            268435455,
            268435455,
            268435455,
            268435455,
            268435455,
            268435455,
            268435455,
        ],
    )
}

/// The constant `-d = 39081`.
pub fn neg_edwards_d() -> (r: FieldElement28)
    ensures
        r.value() == 39081,
        r.is_weak(),
{
    proof {
        reveal(limbs_value);
    }
    FieldElement28(
        [
            39081,
            0,
            0,
            0,
            0,
            0,
            0,
            0,
            0,
            0,
            0,
            0,
            0,
            0,
            0,
            0,
        ],
    )
}

/// The constant `d - 1 = -39082` of the twisted Edwards curve.
pub fn twisted_d_element() -> (r: FieldElement28)
    ensures
        r.value() == twisted_d(),
        r.is_weak(),
{
    proof {
        reveal(limbs_value);
    }
    FieldElement28(
        [
            268396373,
            268435455,
            268435455,
            268435455,
            268435455,
            268435455,
            268435455,
            268435455,
            268435454,
            268435455,
            268435455,
            268435455,
            268435455,
            268435455,
            268435455,
            268435455,
        ],
    )
}

/// Twice the constant of the twisted Edwards curve, `-78164`.
pub fn two_times_twisted_d() -> (r: FieldElement28)
    ensures
        r.value() == field_modulus() - 78164,
        r.is_weak(),
{
    proof {
        reveal(limbs_value);
    }
    FieldElement28(
        [
            268357291,
            268435455,
            268435455,
            268435455,
            268435455,
            268435455,
            268435455,
            268435455,
            268435454,
            268435455,
            268435455,
            268435455,
            268435455,
            268435455,
            268435455,
            268435455,
        ],
    )
}

/// The constant `1 - d = 39082`.
pub fn one_minus_d() -> (r: FieldElement28)
    ensures
        r.value() == 39082,
        r.is_weak(),
{
    proof {
        reveal(limbs_value);
    }
    FieldElement28(
        [
            39082,
            0,
            0,
            0,
            0,
            0,
            0,
            0,
            0,
            0,
            0,
            0,
            0,
            0,
            0,
            0,
        ],
    )
}

/// The constant `2 (1 - d) = 78164`.
pub fn two_one_minus_d() -> (r: FieldElement28)
    ensures
        r.value() == 78164,
        r.is_weak(),
{
    proof {
        reveal(limbs_value);
    }
    FieldElement28(
        [
            78164,
            0,
            0,
            0,
            0,
            0,
            0,
            0,
            0,
            0,
            0,
            0,
            0,
            0,
            0,
            0,
        ],
    )
}

/// The constant `-4 (d - 1) = 156328`.
pub fn neg_four_times_twisted_d() -> (r: FieldElement28)
    ensures
        r.value() == 156328,
        r.is_weak(),
{
    proof {
        reveal(limbs_value);
    }
    FieldElement28(
        [
            156327,
            268435456,
            268435455,
            268435455,
            268435455,
            268435455,
            268435455,
            268435455,
            268435454,
            268435455,
            268435455,
            268435455,
            268435455,
            268435455,
            268435455,
            268435455,
        ],
    )
}

/// The constant `(A + 2) / 4 = 39082` of the Montgomery curve.
pub fn a_plus_two_over_four() -> (r: FieldElement28)
    ensures
        r.value() == 39082,
        r.is_weak(),
{
    proof {
        reveal(limbs_value);
    }
    FieldElement28(
        [
            39082,
            0,
            0,
            0,
            0,
            0,
            0,
            0,
            0,
            0,
            0,
            0,
            0,
            0,
            0,
            0,
        ],
    )
}

/// The residue of the sign-choosing constant of the Decaf encoding.
pub open spec fn decaf_factor_value() -> int {
    0x22d962fbeb24f7683bf68d722fa26aa0a1f1a7b8a5b8d54b64a2d780968c14ba839a66f4fd6eded260337bf6aa20ce529642ef0f45572736int
}

/// The sign-choosing constant of the Decaf encoding, an inverse square root
/// of `a d2 - 1` for the curve in its Jacobi quartic form.
pub fn decaf_factor() -> (r: FieldElement28)
    ensures
        r.value() == decaf_factor_value(),
        r.is_weak(),
{
    proof {
        reveal(limbs_value);
    }
    FieldElement28(
        [
            89597750,
            70185204,
            13521558,
            129985186,
            248668211,
            256890605,
            176396902,
            157860171,
            77780864,
            193811638,
            27768997,
            111807007,
            225587106,
            109297512,
            199959799,
            36541999,
        ],
    )
}

/// The coordinates of the base point of the Edwards curve.
pub open spec fn goldilocks_base_coordinates() -> Coordinates {
    Coordinates {
        X: 0x4f1970c66bed0ded221d15a622bf36da9e146570470f1767ea6de324a3d3a46412ae1af72ab66511433b80e18b00938e2626a82bc70cc05eint,
        Y: 0x693f46716eb6bc248876203756c9c7624bea73736ca3984087789c1e05a0c2d73ad3ff1ce67c39c4fdbd132c4ed7c8ad9808795bf230fa14int,
        Z: 1,
        T: 0xc75eb58aee221c6ccec39d2d508d91c9c5056a183f8451d260d71667e2356d58f179de90b5b27da1f78fa07d85662d1deb06624e82af95f3int,
    }
}

/// The coordinates of the base point of the twisted Edwards curve, the
/// image of the Edwards base point under the isogeny.
pub open spec fn twisted_base_coordinates() -> Coordinates {
    Coordinates {
        X: 0x7ffffffffffffffffffffffffffffffffffffffffffffffffffffffe80000000000000000000000000000000000000000000000000000000int,
        Y: 0x8508de14f04286d48d06c13078ca240805264370504c74c393d5242c5045271414181844d73f48e5199b0c1e3ab470a1c86079b4dfdd4a64int,
        Z: 1,
        T: 0x6d3669e173c6a450e23d5682a9ffe1ddc2b86da60f794be956382384a319b57519c9854dde98e342140362071833f4e093e3c816dc198105int,
    }
}

/// The residue of a product, from the quotient of the product by the
/// modulus.
proof fn lemma_mul_residue(x: int, y: int, q: int, r: int)
    requires
        x * y == q * field_modulus() + r,
        0 <= r < field_modulus(),
    ensures
        crate::field::element::field_mul(x, y) == r,
{
    crate::field::element::lemma_residue_unique(x * y, r, q);
}

/// The base point of the Edwards curve lies on it.
pub proof fn lemma_goldilocks_base_on_curve()
    ensures
        edwards_on_curve(goldilocks_base_coordinates()),
{
    lemma_mul_residue(0x4f1970c66bed0ded221d15a622bf36da9e146570470f1767ea6de324a3d3a46412ae1af72ab66511433b80e18b00938e2626a82bc70cc05eint, 0x693f46716eb6bc248876203756c9c7624bea73736ca3984087789c1e05a0c2d73ad3ff1ce67c39c4fdbd132c4ed7c8ad9808795bf230fa14int, 0x2084fc48245f37d28dcb7d4e35e06c054a13aa7b4ee4fa2471cfe4091587b062c9d0e5ecae5844c4e687f7574ce86fbfaa024ed99434c29bint, 0xc75eb58aee221c6ccec39d2d508d91c9c5056a183f8451d260d71667e2356d58f179de90b5b27da1f78fa07d85662d1deb06624e82af95f3int);
    lemma_mul_residue(0x1int, 0xc75eb58aee221c6ccec39d2d508d91c9c5056a183f8451d260d71667e2356d58f179de90b5b27da1f78fa07d85662d1deb06624e82af95f3int, 0x0int, 0xc75eb58aee221c6ccec39d2d508d91c9c5056a183f8451d260d71667e2356d58f179de90b5b27da1f78fa07d85662d1deb06624e82af95f3int);
    lemma_mul_residue(0x693f46716eb6bc248876203756c9c7624bea73736ca3984087789c1e05a0c2d73ad3ff1ce67c39c4fdbd132c4ed7c8ad9808795bf230fa14int, 0x693f46716eb6bc248876203756c9c7624bea73736ca3984087789c1e05a0c2d73ad3ff1ce67c39c4fdbd132c4ed7c8ad9808795bf230fa14int, 0x2b44f76ccc089f156e03af91c5d22a7942605469ffecddf764cfe6fb0268db9336f981174d7f69081393264ae1f0c1e5aa646a4535365792int, 0x74366fc32eea2671c5d7678ec0532d3b302e3babea6ee99099c9bdaf537802431535a5b7182b434756747ce9fb5b58ed6bfdbea9c1016922int);
    lemma_mul_residue(0x4f1970c66bed0ded221d15a622bf36da9e146570470f1767ea6de324a3d3a46412ae1af72ab66511433b80e18b00938e2626a82bc70cc05eint, 0x4f1970c66bed0ded221d15a622bf36da9e146570470f1767ea6de324a3d3a46412ae1af72ab66511433b80e18b00938e2626a82bc70cc05eint, 0x1870b621af0b9b1f9fbfaadc002b13aacd4c7b2d9957340f3961bc8d4b80e82d85742beb4eb9616e45522a5319708b120f5b860c693cbf4fint, 0xb0d7aff3d62ed47d27917b1c8cdd6f723cd60bef2ee2fb8351f525ef43e4cd409dd7878b04d573db114a7f61ff1244fc48cc59552699e1d3int);
    lemma_mul_residue(0x1int, 0x1int, 0x0int, 0x1int);
    lemma_mul_residue(0xc75eb58aee221c6ccec39d2d508d91c9c5056a183f8451d260d71667e2356d58f179de90b5b27da1f78fa07d85662d1deb06624e82af95f3int, 0xc75eb58aee221c6ccec39d2d508d91c9c5056a183f8451d260d71667e2356d58f179de90b5b27da1f78fa07d85662d1deb06624e82af95f3int, 0x9b446147d0fda95fdfd7e919482d6911b182280442ddbf835221532d25ecb00eb07dbfb10527e8dce17454acc1860323722f039cfee195d1int, 0xe84292854df3671adede391342b8ad4bc3e21f818d4118c4a38da7fa67b0c4f47e73e924e7603d69abf7b214f9061bdaf0173c6a24f05a7aint);
    lemma_mul_residue(0xe84292854df3671adede391342b8ad4bc3e21f818d4118c4a38da7fa67b0c4f47e73e924e7603d69abf7b214f9061bdaf0173c6a24f05a7aint, 0xfffffffffffffffffffffffffffffffffffffffffffffffffffffffeffffffffffffffffffffffffffffffffffffffffffffffffffff6756int, 0xe84292854df3671adede391342b8ad4bc3e21f818d4118c4a38da7fa67b0c4f47e73e924e7603d69abf7b214f9061bdaf0173c6a24efcff9int, 0x250e1fb70518faeeed68e2ab4d309cad6d04479b1951e513ebbee39f975ccf83b30d2d421d00b72267befc4bfa6d9de9b4ca17fee79b4af5int);
}

/// The base point of the twisted Edwards curve lies on it.
pub proof fn lemma_twisted_base_on_curve()
    ensures
        twisted_on_curve(twisted_base_coordinates()),
{
    lemma_mul_residue(0x7ffffffffffffffffffffffffffffffffffffffffffffffffffffffe80000000000000000000000000000000000000000000000000000000int, 0x8508de14f04286d48d06c13078ca240805264370504c74c393d5242c5045271414181844d73f48e5199b0c1e3ab470a1c86079b4dfdd4a64int, 0x42846f0a7821436a468360983c651204029321b828263a61c9ea9215a319b57519c9854dde98e342140362071833f4e093e3c816dc198105int, 0x6d3669e173c6a450e23d5682a9ffe1ddc2b86da60f794be956382384a319b57519c9854dde98e342140362071833f4e093e3c816dc198105int);
    lemma_mul_residue(0x1int, 0x6d3669e173c6a450e23d5682a9ffe1ddc2b86da60f794be956382384a319b57519c9854dde98e342140362071833f4e093e3c816dc198105int, 0x0int, 0x6d3669e173c6a450e23d5682a9ffe1ddc2b86da60f794be956382384a319b57519c9854dde98e342140362071833f4e093e3c816dc198105int);
    lemma_mul_residue(0x8508de14f04286d48d06c13078ca240805264370504c74c393d5242c5045271414181844d73f48e5199b0c1e3ab470a1c86079b4dfdd4a64int, 0x8508de14f04286d48d06c13078ca240805264370504c74c393d5242c5045271414181844d73f48e5199b0c1e3ab470a1c86079b4dfdd4a64int, 0x45223710639c76ab158c590e85b06cf77e86122864d2b83e71e8508c328e7941014c27e624e893a16efb0bef6f3952a3ce38e267654b54d3int, 0xfc757eaaedbd9cc9c1ab17ff4eecb3ffd7c16eba256624cd370b93ff1bb00bb22f0519ee508128cd6f632c2eb0968a0a9c7f4deb23914be3int);
    lemma_mul_residue(0x7ffffffffffffffffffffffffffffffffffffffffffffffffffffffe80000000000000000000000000000000000000000000000000000000int, 0x7ffffffffffffffffffffffffffffffffffffffffffffffffffffffe80000000000000000000000000000000000000000000000000000000int, 0x3ffffffffffffffffffffffffffffffffffffffffffffffffffffffec0000000000000000000000000000000000000000000000000000001int, 0x3fffffffffffffffffffffffffffffffffffffffffffffffffffffffc0000000000000000000000000000000000000000000000000000001int);
    lemma_mul_residue(0x1int, 0x1int, 0x0int, 0x1int);
    lemma_mul_residue(0x6d3669e173c6a450e23d5682a9ffe1ddc2b86da60f794be956382384a319b57519c9854dde98e342140362071833f4e093e3c816dc198105int, 0x6d3669e173c6a450e23d5682a9ffe1ddc2b86da60f794be956382384a319b57519c9854dde98e342140362071833f4e093e3c816dc198105int, 0x2e9761bad37eb73fdd1aef130685ad74d86ad8630253d7f26fe3e5c98a54fe8dd75c14a8f4b5f6b411177c91847782744b8b4c3ee07594c3int, 0xfb92de55a92d03fc3215ddff22a7e0ffcdb1ca68aebfae0084ce78ff229c0e9ebac66069e4a17300cb3bf73a5cbc2c8d439f2165ec759edcint);
    lemma_mul_residue(0xfb92de55a92d03fc3215ddff22a7e0ffcdb1ca68aebfae0084ce78ff229c0e9ebac66069e4a17300cb3bf73a5cbc2c8d439f2165ec759edcint, 0xfffffffffffffffffffffffffffffffffffffffffffffffffffffffeffffffffffffffffffffffffffffffffffffffffffffffffffff6755int, 0xfb92de55a92d03fc3215ddff22a7e0ffcdb1ca68aebfae0084ce78ff229c0e9ebac66069e4a17300cb3bf73a5cbc2c8d439f2165ec7508d5int, 0xbc757eaaedbd9cc9c1ab17ff4eecb3ffd7c16eba256624cd370b93ff5bb00bb22f0519ee508128cd6f632c2eb0968a0a9c7f4deb23914be1int);
}

/// The base point of the Edwards curve.
pub fn goldilocks_base_point() -> (r: ExtendedPoint)
    ensures
        r@ == goldilocks_base_coordinates(),
        r.is_weak(),
{
    proof {
        reveal(limbs_value);
    }
    ExtendedPoint {
        X: FieldElement28(
            [
                118276190,
                40534716,
                9670182,
                135141552,
                85017403,
                259173222,
                68333082,
                171784774,
                174973732,
                15824510,
                73756743,
                57518561,
                94773951,
                248652241,
                107736333,
                82941708,
            ],
        ),
        Y: FieldElement28(
            [
                36764180,
                8885695,
                130592152,
                20104429,
                163904957,
                30304195,
                121295871,
                5901357,
                125344798,
                171541512,
                175338348,
                209069246,
                3626697,
                38307682,
                24032956,
                110359655,
            ],
        ),
        Z: FieldElement28([1, 0, 0, 0, 0, 0, 0, 0, 0, 0, 0, 0, 0, 0, 0, 0]),
        T: FieldElement28(
            [
                45061619,
                6694120,
                103620075,
                168286294,
                228718479,
                151739175,
                150043102,
                237197013,
                14095975,
                138747174,
                90839103,
                152869968,
                221073549,
                114093113,
                183378460,
                209054552,
            ],
        ),
    }
}

/// The base point of the twisted Edwards curve.
pub fn twisted_edwards_base_point() -> (r: TwistedExtendedPoint)
    ensures
        r@ == twisted_base_coordinates(),
        r.is_weak(),
{
    proof {
        reveal(limbs_value);
    }
    TwistedExtendedPoint {
        X: FieldElement28(
            [
                0,
                268435456,
                268435455,
                268435455,
                268435455,
                268435455,
                268435455,
                134217727,
                268435454,
                268435455,
                268435455,
                268435455,
                268435455,
                268435455,
                268435455,
                134217727,
            ],
        ),
        Y: FieldElement28(
            [
                266160740,
                101161805,
                74490312,
                12706731,
                149232027,
                72184820,
                68425752,
                84169329,
                64300076,
                80170041,
                105082960,
                37781586,
                19953866,
                222875756,
                82854534,
                139496929,
            ],
        ),
        Z: FieldElement28([1, 0, 0, 0, 0, 0, 0, 0, 0, 0, 0, 0, 0, 0, 0, 0]),
        T: FieldElement28(
            [
                202998021,
                238846317,
                66379923,
                102789507,
                54662147,
                81652110,
                85576069,
                171023191,
                104342404,
                127188629,
                141403663,
                236837931,
                109226495,
                84812757,
                24364708,
                114517662,
            ],
        ),
    }
}

} // verus!
