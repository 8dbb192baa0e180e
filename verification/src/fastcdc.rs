//! FastCDC 2020 content-defined chunking, compatible with Bazel's
//! `FastCdcChunker` defaults.
//!
//! A chunk ends before the first byte at which a rolling hash over the bytes
//! behind the minimum meets a mask. The mask is harder to meet below the
//! average size than above it.

use vstd::prelude::*;

verus! {

pub const DEFAULT_AVG: usize = 512 * 1024;

pub const DEFAULT_MIN: usize = DEFAULT_AVG / 4;

pub const DEFAULT_MAX: usize = DEFAULT_AVG * 4;

pub const DEFAULT_NORMALIZATION: usize = 2;

pub const DEFAULT_SEED: u64 = 0;

/// The mask with a given number of bits; none is used with fewer than five.
pub const MASKS: [u64; 26] = [
    0x0000000000000000, 0x0000000000000000, 0x0000000000000000, 0x0000000000000000,
    0x0000000000000000, 0x0000000001804110, 0x0000000001803110, 0x0000000018035100,
    0x0000001800035300, 0x0000019000353000, 0x0000590003530000, 0x0000d90003530000,
    0x0000d90103530000, 0x0000d90303530000, 0x0000d90313530000, 0x0000d90f03530000,
    0x0000d90303537000, 0x0000d90703537000, 0x0000d90707537000, 0x0000d91707537000,
    0x0000d91747537000, 0x0000d91767537000, 0x0000d93767537000, 0x0000d93777537000,
    0x0000d93777577000, 0x0000db3777577000,
];

/// What each byte adds to the rolling hash.
pub const GEAR: [u64; 256] = [
    0x3b5d3c7d207e37dc, 0x784d68ba91123086, 0xcd52880f882e7298, 0xeacf8e4e19fdcca7,
    0xc31f385dfbd1632b, 0x1d5f27001e25abe6, 0x83130bde3c9ad991, 0xc4b225676e9b7649,
    0xaa329b29e08eb499, 0xb67fcbd21e577d58, 0x0027baaada2acf6b, 0xe3ef2d5ac73c2226,
    0x0890f24d6ed312b7, 0xa809e036851d7c7e, 0xf0a6fe5e0013d81b, 0x1d026304452cec14,
    0x03864632648e248f, 0xcdaacf3dcd92b9b4, 0xf5e012e63c187856, 0x8862f9d3821c00b6,
    0xa82f7338750f6f8a, 0x1e583dc6c1cb0b6f, 0x7a3145b69743a7f1, 0xabb20fee404807eb,
    0xb14b3cfe07b83a5d, 0xb9dc27898adb9a0f, 0x3703f5e91baa62be, 0xcf0bb866815f7d98,
    0x3d9867c41ea9dcd3, 0x1be1fa65442bf22c, 0x14300da4c55631d9, 0xe698e9cbc6545c99,
    0x4763107ec64e92a5, 0xc65821fc65696a24, 0x76196c064822f0b7, 0x485be841f3525e01,
    0xf652bc9c85974ff5, 0xcad8352face9e3e9, 0x2a6ed1dceb35e98e, 0xc6f483badc11680f,
    0x3cfd8c17e9cf12f1, 0x89b83c5e2ea56471, 0xae665cfd24e392a9, 0xec33c4e504cb8915,
    0x3fb9b15fc9fe7451, 0xd7fd1fd1945f2195, 0x31ade0853443efd8, 0x255efc9863e1e2d2,
    0x10eab6008d5642cf, 0x46f04863257ac804, 0xa52dc42a789a27d3, 0xdaaadf9ce77af565,
    0x6b479cd53d87febb, 0x6309e2d3f93db72f, 0xc5738ffbaa1ff9d6, 0x6bd57f3f25af7968,
    0x67605486d90d0a4a, 0xe14d0b9663bfbdae, 0xb7bbd8d816eb0414, 0xdef8a4f16b35a116,
    0xe7932d85aaaffed6, 0x08161cbae90cfd48, 0x855507beb294f08b, 0x91234ea6ffd399b2,
    0xad70cf4b2435f302, 0xd289a97565bc2d27, 0x8e558437ffca99de, 0x96d2704b7115c040,
    0x0889bbcdfc660e41, 0x5e0d4e67dc92128d, 0x72a9f8917063ed97, 0x438b69d409e016e3,
    0xdf4fed8a5d8a4397, 0x00f41dcf41d403f7, 0x4814eb038e52603f, 0x9dafbacc58e2d651,
    0xfe2f458e4be170af, 0x4457ec414df6a940, 0x06e62f1451123314, 0xbd1014d173ba92cc,
    0xdef318e25ed57760, 0x9fea0de9dfca8525, 0x459de1e76c20624b, 0xaeec189617e2d666,
    0x126a2c06ab5a83cb, 0xb1321532360f6132, 0x65421503dbb40123, 0x2d67c287ea089ab3,
    0x6c93bff5a56bd6b6, 0x4ffb2036cab6d98d, 0xce7b785b1be7ad4f, 0xedb42ef6189fd163,
    0xdc905288703988f6, 0x365f9c1d2c691884, 0xc640583680d99bfe, 0x3cd4624c07593ec6,
    0x7f1ea8d85d7c5805, 0x014842d480b57149, 0x0b649bcb5a828688, 0xbcd5708ed79b18f0,
    0xe987c862fbd2f2f0, 0x982731671f0cd82c, 0xbaf13e8b16d8c063, 0x8ea3109cbd951bba,
    0xd141045bfb385cad, 0x2acbc1a0af1f7d30, 0xe6444d89df03bfdf, 0xa18cc771b8188ff9,
    0x9834429db01c39bb, 0x214add07fe086a1f, 0x8f07c19b1f6b3ff9, 0x56a297b1bf4ffe55,
    0x94d558e493c54fc7, 0x40bfc24c764552cb, 0x931a706f8a8520cb, 0x32229d322935bd52,
    0x2560d0f5dc4fefaf, 0x9dbcc48355969bb6, 0x0fd81c3985c0b56a, 0xe03817e1560f2bda,
    0xc1bb4f81d892b2d5, 0xb0c4864f4e28d2d7, 0x3ecc49f9d9d6c263, 0x51307e99b52ba65e,
    0x8af2b688da84a752, 0xf5d72523b91b20b6, 0x6d95ff1ff4634806, 0x562f21555458339a,
    0xc0ce47f889336346, 0x487823e5089b40d8, 0xe4727c7ebc6d9592, 0x5a8f7277e94970ba,
    0xfca2f406b1c8bb50, 0x5b1f8a95f1791070, 0xd304af9fc9028605, 0x5440ab7fc930e748,
    0x312d25fbca2ab5a1, 0x10f4a4b234a4d575, 0x90301d55047e7473, 0x3b6372886c61591e,
    0x293402b77c444e06, 0x451f34a4d3e97dd7, 0x3158d814d81bc57b, 0x034942425b9bda69,
    0xe2032ff9e532d9bb, 0x62ae066b8b2179e5, 0x9545e10c2f8d71d8, 0x7ff7483eb2d23fc0,
    0x00945fcebdc98d86, 0x8764bbbe99b26ca2, 0x1b1ec62284c0bfc3, 0x58e0fcc4f0aa362b,
    0x5f4abefa878d458d, 0xfd74ac2f9607c519, 0xa4e3fb37df8cbfa9, 0xbf697e43cac574e5,
    0x86f14a3f68f4cd53, 0x24a23d076f1ce522, 0xe725cd8048868cc8, 0xbf3c729eb2464362,
    0xd8f6cd57b3cc1ed8, 0x6329e52425541577, 0x62aa688ad5ae1ac0, 0x0a242566269bf845,
    0x168b1a4753aca74b, 0xf789afefff2e7e3c, 0x6c3362093b6fccdb, 0x4ce8f50bd28c09b2,
    0x006a2db95ae8aa93, 0x975b0d623c3d1a8c, 0x18605d3935338c5b, 0x5bb6f6136cad3c71,
    0x0f53a20701f8d8a6, 0xab8c5ad2e7e93c67, 0x40b5ac5127acaa29, 0x8c7bf63c2075895f,
    0x78bd9f7e014a805c, 0xb2c9e9f4f9c8c032, 0xefd6049827eb91f3, 0x2be459f482c16fbd,
    0xd92ce0c5745aaa8c, 0x0aaa8fb298d965b9, 0x2b37f92c6c803b15, 0x8c54a5e94e0f0e78,
    0x95f9b6e90c0a3032, 0xe7939faa436c7874, 0xd16bfe8f6a8a40c9, 0x44982b86263fd2fa,
    0xe285fb39f984e583, 0x779a8df72d7619d3, 0xf2d79a8de8d5dd1e, 0xd1037354d66684e2,
    0x004c82a4e668a8e5, 0x31d40a7668b044e6, 0xd70578538bd02c11, 0xdb45431078c5f482,
    0x977121bb7f6a51ad, 0x73d5ccbd34eff8dd, 0xe437a07d356e17cd, 0x47b2782043c95627,
    0x9fb251413e41d49a, 0xccd70b60652513d3, 0x1c95b31e8a1b49b2, 0xcae73dfd1bcb4c1b,
    0x34d98331b1f5b70f, 0x784e39f22338d92f, 0x18613d4a064df420, 0xf1d8dae25f0bcebe,
    0x33f77c15ae855efc, 0x3c88b3b912eb109c, 0x956a2ec96bafeea5, 0x1aa005b5e0ad0e87,
    0x5500d70527c4bb8e, 0xe36c57196421cc44, 0x13c4d286cc36ee39, 0x5654a23d818b2a81,
    0x77b1dc13d161abdc, 0x734f44de5f8d5eb5, 0x60717e174a6c89a2, 0xd47d9649266a211e,
    0x5b13a4322bb69e90, 0xf7669609f8b5fc3c, 0x21e6ac55bedcdac9, 0x9b56b62b61166dea,
    0xf48f66b939797e9c, 0x35f332f9c0e6ae9a, 0xcc733f6a9a878db0, 0x3da161e41cc108c2,
    0xb7d74ae535914d51, 0x4d493b0b11d36469, 0xce264d1dfba9741a, 0xa9d1f2dc7436dc06,
    0x70738016604c2a27, 0x231d36e96e93f3d5, 0x7666881197838d19, 0x4a2a83090aaad40c,
    0xf1e761591668b35d, 0x7363236497f730a7, 0x301080e37379dd4d, 0x502dea2971827042,
    0xc2c5eb858f32625f, 0x786afb9edfafbdff, 0xdaee0d868490b2a4, 0x617366b3268609f6,
    0xae0e35a0fe46173e, 0xd1a07de93e824f11, 0x079b8b115ea4cca8, 0x93a99274558faebb,
    0xfb1e6e22e08a03b3, 0xea635fdba3698dd0, 0xcf53659328503a5c, 0xcde3b31e6fd5d780,
    0x8e3e4221d3614413, 0xef14d0d86bf1a22c, 0xe1d830d3f16c5ddb, 0xaabd2b2a451504e1,
];

/// Why chunk sizes are refused.
#[derive(Debug, Clone, Copy, PartialEq, Eq, Structural)]
pub enum ChunkerError {
    AverageNotPowerOfTwo,
    MinimumZero,
    MinimumExceedsAverage,
    AverageExceedsMaximum,
    NormalizationTooLarge,
}

impl ChunkerError {
    /// Reports the fault.
    pub fn message(self) -> (r: &'static str)
        ensures
            r@ == match self {
                ChunkerError::AverageNotPowerOfTwo => "average chunk size must be a power of two"@,
                ChunkerError::MinimumZero => "minimum chunk size must be positive"@,
                ChunkerError::MinimumExceedsAverage => "minimum chunk size exceeds average"@,
                ChunkerError::AverageExceedsMaximum => "average chunk size exceeds maximum"@,
                ChunkerError::NormalizationTooLarge => "normalization is too large"@,
            },
    {
        match self {
            ChunkerError::AverageNotPowerOfTwo => "average chunk size must be a power of two",
            ChunkerError::MinimumZero => "minimum chunk size must be positive",
            ChunkerError::MinimumExceedsAverage => "minimum chunk size exceeds average",
            ChunkerError::AverageExceedsMaximum => "average chunk size exceeds maximum",
            ChunkerError::NormalizationTooLarge => "normalization is too large",
        }
    }
}

/// `n` is a power of two.
pub open spec fn power_of_two(n: nat) -> bool
    decreases n,
{
    n == 1 || (n > 1 && n % 2 == 0 && power_of_two(n / 2))
}

/// Which power of two `n` is.
pub open spec fn exponent(n: nat) -> nat
    decreases n,
{
    if n <= 1 {
        0
    } else {
        1 + exponent(n / 2)
    }
}

/// Which power of two `n` is, if it is one.
fn exponent_of(n: usize) -> (r: Option<u32>)
    ensures
        match r {
            Some(k) => power_of_two(n as nat) && k == exponent(n as nat) && k < usize::BITS,
            None => !power_of_two(n as nat),
        },
    decreases n,
{
    if n == 0 {
        return None;
    }
    let mut rest: usize = n;
    let mut k: u32 = 0;
    assert(n >> 0 == n) by (bit_vector);
    while rest > 1 && rest % 2 == 0
        invariant
            rest >= 1,
            k < usize::BITS,
            rest == n >> k,
            power_of_two(rest as nat) == power_of_two(n as nat),
            exponent(n as nat) == k + exponent(rest as nat),
        decreases rest,
    {
        assert(n >> k > 1 && k < usize::BITS ==> k + 1 < usize::BITS && (n >> k) / 2 == n >> (
        (k + 1) as u32)) by (bit_vector);
        rest = rest / 2;
        k += 1;
    }
    if rest == 1 {
        Some(k)
    } else {
        None
    }
}

/// A chunker: its sizes, its two masks and its seed.
#[derive(Debug, Clone, Copy)]
pub struct FastCdc {
    pub average: usize,
    pub minimum: usize,
    pub maximum: usize,
    pub mask_small: u64,
    pub mask_large: u64,
    pub seed: u64,
}

/// The largest even number that is not larger.
pub open spec fn even(n: int) -> int {
    n - n % 2
}

impl FastCdc {
    /// The sizes ascend and the masks leave the highest bit of a hash alone.
    pub open spec fn wf(self) -> bool {
        &&& 0 < self.minimum <= self.average <= self.maximum
        &&& self.mask_small < 0x8000_0000_0000_0000
        &&& self.mask_large < 0x8000_0000_0000_0000
    }

    /// The chunker has these sizes, which are in order, and the masks with
    /// `normalization` bits more and less than the average size has.
    pub open spec fn configured(
        self,
        average: usize,
        minimum: usize,
        maximum: usize,
        normalization: usize,
        seed: u64,
    ) -> bool {
        &&& sizes_fault(average as nat, minimum as nat, maximum as nat, normalization as nat)
            == None::<ChunkerError>
        &&& self.average == average
        &&& self.minimum == minimum
        &&& self.maximum == maximum
        &&& self.mask_small == MASKS@[exponent(average as nat) + normalization]
        &&& self.mask_large == MASKS@[exponent(average as nat) - normalization]
        &&& self.seed == seed
    }

    /// The rolling hash behind byte `i`: twice the hash before it and what the
    /// byte adds. It starts at the minimum.
    pub open spec fn rolled(self, bytes: Seq<u8>, i: int) -> u64
        decreases i + 1,
    {
        if i < even(self.minimum as int) || i < 0 {
            0
        } else {
            roll(self.rolled(bytes, i - 1), GEAR@[bytes[i] as int] ^ self.seed)
        }
    }

    /// The hash behind byte `i` meets the mask for its position.
    pub open spec fn cuts(self, bytes: Seq<u8>, i: int) -> bool {
        let mask = if i < even(smaller(smaller(bytes.len() as int, self.maximum as int), self.average as int)) {
            self.mask_small
        } else {
            self.mask_large
        };
        self.rolled(bytes, i) & mask == 0
    }

    /// `n` is the length of the first chunk of `bytes`: all of them up to the
    /// minimum; else up to the first byte that cuts, looked for from the
    /// minimum to the maximum, in whole pairs of bytes.
    pub open spec fn first_chunk(self, bytes: Seq<u8>, n: int) -> bool {
        let end = smaller(bytes.len() as int, self.maximum as int);
        if bytes.len() <= self.minimum {
            n == bytes.len()
        } else {
            &&& even(self.minimum as int) <= n <= end
            &&& forall|i: int|
                even(self.minimum as int) <= i < n && i < even(end) ==> !#[trigger] self.cuts(bytes, i)
            &&& if n < even(end) {
                self.cuts(bytes, n)
            } else {
                n == end
            }
        }
    }

    /// A chunker with the given sizes. The masks are those with
    /// `normalization` bits more and less than the average size has.
    pub fn new(
        average: usize,
        minimum: usize,
        maximum: usize,
        normalization: usize,
        seed: u64,
    ) -> (r: Result<Self, ChunkerError>)
        ensures
            match r {
                Ok(c) => c.wf() && c.configured(average, minimum, maximum, normalization, seed),
                Err(e) => sizes_fault(
                    average as nat,
                    minimum as nat,
                    maximum as nat,
                    normalization as nat,
                ) == Some(e),
            },
    {
        let bits: usize = match exponent_of(average) {
            Some(k) => k as usize,
            None => {
                return Err(ChunkerError::AverageNotPowerOfTwo);
            },
        };
        if minimum == 0 {
            return Err(ChunkerError::MinimumZero);
        }
        if minimum > average {
            return Err(ChunkerError::MinimumExceedsAverage);
        }
        if average > maximum {
            return Err(ChunkerError::AverageExceedsMaximum);
        }
        if normalization > 25 || bits + normalization > 25 || bits < normalization + 5 {
            return Err(ChunkerError::NormalizationTooLarge);
        }
        proof {
            masks_low();
        }
        Ok(
            FastCdc {
                average,
                minimum,
                maximum,
                mask_small: MASKS[bits + normalization],
                mask_large: MASKS[bits - normalization],
                seed,
            },
        )
    }
}

impl FastCdc {
    /// The length of the first chunk of `bytes`.
    pub fn boundary(&self, bytes: &[u8]) -> (r: usize)
        requires
            self.wf(),
        ensures
            self.first_chunk(bytes@, r as int),
            r <= bytes@.len(),
            r <= self.maximum,
    {
        let len: usize = bytes.len();
        if len <= self.minimum {
            return len;
        }
        let end: usize = if len < self.maximum {
            len
        } else {
            self.maximum
        };
        let center: usize = if end < self.average {
            end
        } else {
            self.average
        };
        let minimum: usize = self.minimum - self.minimum % 2;
        let center: usize = center - center % 2;
        let remaining: usize = end - end % 2;
        let seed_shifted: u64 = self.seed << 1;
        let small_shifted: u64 = self.mask_small << 1;
        let large_shifted: u64 = self.mask_large << 1;
        let mut hash: u64 = 0;
        let mut offset: usize = minimum;
        while offset < remaining
            invariant
                self.wf(),
                len == bytes@.len(),
                len > self.minimum,
                end == smaller(len as int, self.maximum as int),
                center == even(smaller(end as int, self.average as int)),
                minimum == even(self.minimum as int),
                remaining == even(end as int),
                seed_shifted == self.seed << 1,
                small_shifted == self.mask_small << 1,
                large_shifted == self.mask_large << 1,
                minimum <= offset <= remaining,
                offset % 2 == 0,
                hash == self.rolled(bytes@, offset - 1),
                forall|i: int| minimum <= i < offset ==> !#[trigger] self.cuts(bytes@, i),
            decreases remaining - offset,
        {
            let (mask, mask_shifted): (u64, u64) = if offset < center {
                (self.mask_small, small_shifted)
            } else {
                (self.mask_large, large_shifted)
            };
            let first: u64 = GEAR[bytes[offset] as usize];
            let second: u64 = GEAR[bytes[offset + 1] as usize];
            let ghost before = hash;
            let ghost one = self.rolled(bytes@, offset as int);
            let ghost two = self.rolled(bytes@, offset + 1);
            hash = (hash << 2).wrapping_add((first << 1) ^ seed_shifted);
            proof {
                assert(one == roll(before, first ^ self.seed));
                assert(two == roll(one, second ^ self.seed));
                roll_twice(before, first, self.seed, hash, one, mask);
            }
            if hash & mask_shifted == 0 {
                assert(self.cuts(bytes@, offset as int));
                return offset;
            }
            assert(!self.cuts(bytes@, offset as int));
            hash = hash.wrapping_add(second ^ self.seed);
            assert(hash == two);
            if hash & mask == 0 {
                assert(self.cuts(bytes@, offset + 1));
                return offset + 1;
            }
            assert(!self.cuts(bytes@, offset + 1));
            offset += 2;
        }
        end
    }

    /// The chunks of `bytes`, one at a time.
    pub fn chunks<'a>(&'a self, bytes: &'a [u8]) -> (r: Chunks<'a>)
        requires
            self.wf(),
        ensures
            r.wf(),
            *r.chunker == *self,
            r.bytes@ == bytes@,
            r.offset == 0,
    {
        Chunks { chunker: self, bytes, offset: 0 }
    }
}

impl Default for FastCdc {
    /// The chunker with Bazel's sizes.
    fn default() -> (r: Self)
        ensures
            r.wf(),
            r.configured(
                DEFAULT_AVG,
                DEFAULT_MIN,
                DEFAULT_MAX,
                DEFAULT_NORMALIZATION,
                DEFAULT_SEED,
            ),
    {
        proof {
            reveal_with_fuel(power_of_two, 21);
            reveal_with_fuel(exponent, 21);
            assert(power_of_two(524288nat));
            assert(exponent(524288nat) == 19);
        }
        match FastCdc::new(
            DEFAULT_AVG,
            DEFAULT_MIN,
            DEFAULT_MAX,
            DEFAULT_NORMALIZATION,
            DEFAULT_SEED,
        ) {
            Ok(c) => c,
            Err(_) => {
                assert(false);
                FastCdc {
                    average: DEFAULT_AVG,
                    minimum: DEFAULT_MIN,
                    maximum: DEFAULT_MAX,
                    mask_small: 0,
                    mask_large: 0,
                    seed: DEFAULT_SEED,
                }
            },
        }
    }
}

/// The chunks that are left of some bytes.
pub struct Chunks<'a> {
    pub chunker: &'a FastCdc,
    pub bytes: &'a [u8],
    pub offset: usize,
}

/// The chunks of `bytes` from `offset` on are `chunks`: each begins where the
/// one before it ends, has the length of the first chunk of what is left, and
/// the last ends where the bytes end.
pub open spec fn tiles(
    chunker: FastCdc,
    bytes: Seq<u8>,
    offset: int,
    chunks: Seq<(usize, usize)>,
) -> bool
    decreases chunks.len(),
{
    if chunks.len() == 0 {
        offset == bytes.len()
    } else {
        &&& offset < bytes.len()
        &&& chunks[0].0 == offset
        &&& chunker.first_chunk(bytes.skip(offset), chunks[0].1 as int)
        &&& tiles(chunker, bytes, offset + chunks[0].1, chunks.skip(1))
    }
}

impl<'a> Chunks<'a> {
    pub open spec fn wf(self) -> bool {
        self.chunker.wf() && self.offset <= self.bytes@.len()
    }

    /// The offset and length of the next chunk; none at the end of the bytes.
    pub fn next(&mut self) -> (r: Option<(usize, usize)>)
        requires
            old(self).wf(),
        ensures
            final(self).wf(),
            *final(self).chunker == *old(self).chunker,
            final(self).bytes@ == old(self).bytes@,
            match r {
                Some((offset, length)) => offset == old(self).offset && offset < old(
                    self,
                ).bytes@.len() && final(self).offset == offset + length
                    && old(self).chunker.first_chunk(
                    old(self).bytes@.skip(offset as int),
                    length as int,
                ),
                None => old(self).offset == old(self).bytes@.len() && final(self).offset
                    == old(self).offset,
            },
    {
        if self.offset == self.bytes.len() {
            return None;
        }
        let rest = vstd::slice::slice_subrange(self.bytes, self.offset, self.bytes.len());
        assert(rest@ =~= self.bytes@.skip(self.offset as int));
        let length: usize = self.chunker.boundary(rest);
        let offset: usize = self.offset;
        self.offset = offset + length;
        Some((offset, length))
    }

    /// All chunks that are left.
    pub fn collect(self) -> (r: Vec<(usize, usize)>)
        requires
            self.wf(),
            self.chunker.minimum >= 2,
        ensures
            tiles(*self.chunker, self.bytes@, self.offset as int, r@),
    {
        let mut rest = Chunks { chunker: self.chunker, bytes: self.bytes, offset: self.offset };
        let mut out: Vec<(usize, usize)> = Vec::new();
        loop
            invariant
                rest.wf(),
                *rest.chunker == *self.chunker,
                rest.bytes@ == self.bytes@,
                rest.chunker.minimum >= 2,
                forall|more: Seq<(usize, usize)>|
                    #[trigger] tiles(*rest.chunker, rest.bytes@, rest.offset as int, more) ==> tiles(
                        *self.chunker,
                        self.bytes@,
                        self.offset as int,
                        out@ + more,
                    ),
            decreases rest.bytes@.len() - rest.offset,
        {
            let ghost start = rest.offset;
            let ghost done = out@;
            match rest.next() {
                Some(chunk) => {
                    out.push(chunk);
                    proof {
                        assert(chunk.1 > 0);
                        assert forall|more: Seq<(usize, usize)>| #[trigger]
                            tiles(
                            *rest.chunker,
                            rest.bytes@,
                            rest.offset as int,
                            more,
                        ) implies tiles(
                            *self.chunker,
                            self.bytes@,
                            self.offset as int,
                            out@ + more,
                        ) by {
                            let longer = seq![chunk] + more;
                            assert(longer.skip(1) =~= more);
                            assert(tiles(*rest.chunker, rest.bytes@, start as int, longer));
                            assert(done + longer =~= out@ + more);
                        }
                    }
                },
                None => {
                    proof {
                        let none = Seq::<(usize, usize)>::empty();
                        assert(tiles(*rest.chunker, rest.bytes@, rest.offset as int, none));
                        assert(out@ + none =~= out@);
                    }
                    return out;
                },
            }
        }
    }
}

/// The bytes of some chunks, one chunk after the other.
pub open spec fn content(bytes: Seq<u8>, chunks: Seq<(usize, usize)>) -> Seq<u8>
    decreases chunks.len(),
{
    if chunks.len() == 0 {
        Seq::empty()
    } else {
        bytes.subrange(chunks[0].0 as int, chunks[0].0 + chunks[0].1) + content(
            bytes,
            chunks.skip(1),
        )
    }
}

/// Chunks lose nothing: one after the other they are the bytes that they were
/// cut from. None is longer than the maximum, and with a minimum of two or
/// more none is empty.
pub proof fn chunks_tile(
    chunker: FastCdc,
    bytes: Seq<u8>,
    offset: int,
    chunks: Seq<(usize, usize)>,
)
    requires
        chunker.wf(),
        0 <= offset <= bytes.len(),
        tiles(chunker, bytes, offset, chunks),
    ensures
        content(bytes, chunks) == bytes.skip(offset),
        forall|i: int|
            0 <= i < chunks.len() ==> #[trigger] chunks[i].1 <= chunker.maximum && (
            chunker.minimum >= 2 ==> chunks[i].1 > 0),
    decreases chunks.len(),
{
    if chunks.len() == 0 {
        assert(content(bytes, chunks) =~= bytes.skip(offset));
    } else {
        let next = offset + chunks[0].1;
        let rest = chunks.skip(1);
        chunks_tile(chunker, bytes, next, rest);
        assert(bytes.subrange(offset, next) + bytes.skip(next) =~= bytes.skip(offset));
        assert forall|i: int| 0 <= i < chunks.len() implies #[trigger] chunks[i].1
            <= chunker.maximum && (chunker.minimum >= 2 ==> chunks[i].1 > 0) by {
            if i > 0 {
                assert(rest[i - 1] == chunks[i]);
            }
        }
    }
}

/// Two steps of the rolling hash at once, shifted by one bit between them.
proof fn roll_twice(hash: u64, gear: u64, seed: u64, half: u64, one: u64, mask: u64)
    requires
        half == vstd::wrapping::u64_specs::wrapping_add(hash << 2, (gear << 1) ^ (seed << 1)),
        one == roll(hash, gear ^ seed),
        mask < 0x8000_0000_0000_0000,
    ensures
        half == one << 1,
        (half & (mask << 1) == 0) == (one & mask == 0),
{
    let a: u64 = hash << 1;
    let b: u64 = gear ^ seed;
    let c: u64 = hash << 2;
    let d: u64 = (gear << 1) ^ (seed << 1);
    assert(c == a << 1 && d == b << 1) by (bit_vector)
        requires
            a == hash << 1,
            b == gear ^ seed,
            c == hash << 2,
            d == (gear << 1) ^ (seed << 1),
    ;
    assert(one as int == if a + b >= 0x1_0000_0000_0000_0000 {
        a + b - 0x1_0000_0000_0000_0000
    } else {
        a + b
    });
    assert(half == one << 1) by (bit_vector)
        requires
            c == a << 1,
            d == b << 1,
            one as int == if a + b >= 0x1_0000_0000_0000_0000 {
                a + b - 0x1_0000_0000_0000_0000
            } else {
                a + b
            },
            half as int == if c + d >= 0x1_0000_0000_0000_0000 {
                c + d - 0x1_0000_0000_0000_0000
            } else {
                c + d
            },
    ;
    assert(((one << 1) & (mask << 1) == 0) == (one & mask == 0)) by (bit_vector)
        requires
            mask < 0x8000_0000_0000_0000,
    ;
}

/// The smaller of two numbers.
pub open spec fn smaller(a: int, b: int) -> int {
    if a <= b {
        a
    } else {
        b
    }
}

/// One step of the rolling hash.
pub open spec fn roll(hash: u64, gear: u64) -> u64 {
    (((hash << 1) as int + gear as int) % 0x1_0000_0000_0000_0000) as u64
}

/// What is wrong with chunk sizes.
pub open spec fn sizes_fault(
    average: nat,
    minimum: nat,
    maximum: nat,
    normalization: nat,
) -> Option<ChunkerError> {
    if !power_of_two(average) {
        Some(ChunkerError::AverageNotPowerOfTwo)
    } else if minimum == 0 {
        Some(ChunkerError::MinimumZero)
    } else if minimum > average {
        Some(ChunkerError::MinimumExceedsAverage)
    } else if average > maximum {
        Some(ChunkerError::AverageExceedsMaximum)
    } else if exponent(average) + normalization > 25 || exponent(average) < normalization + 5 {
        Some(ChunkerError::NormalizationTooLarge)
    } else {
        None
    }
}

/// No mask holds the highest bit.
proof fn masks_low()
    ensures
        forall|i: int| 0 <= i < 26 ==> #[trigger] MASKS@[i] < 0x8000_0000_0000_0000,
{
}

// ---------------------------------------------------------------------------
// Where chunks end
// ---------------------------------------------------------------------------

/// A chunk ends within the limits: what is no longer than the minimum is one chunk,
/// and a chunk of anything longer is neither shorter than the minimum, in whole
/// pairs of bytes, nor longer than the maximum.
pub proof fn chunks_keep_their_limits(c: FastCdc, bytes: &[u8], r: usize)
    requires
        c.wf(),
        call_ensures(FastCdc::boundary, (&c, bytes), r),
    ensures
        bytes@.len() <= c.minimum ==> r == bytes@.len(),
        bytes@.len() > c.minimum ==> r + 1 >= c.minimum && r <= c.maximum && r <= bytes@.len(),
{
}

proof fn same_rolled(c: FastCdc, a: Seq<u8>, b: Seq<u8>, i: int)
    requires
        forall|k: int| 0 <= k <= i ==> a[k] == b[k],
    ensures
        c.rolled(a, i) == c.rolled(b, i),
    decreases i + 1,
{
    if i >= 0 && i >= even(c.minimum as int) {
        same_rolled(c, a, b, i - 1);
    }
}

/// Where a chunk ends is decided by the bytes up to there: two contents that agree
/// that far, and are both as long as a chunk may be, have the same first chunk.
pub proof fn content_decides_the_cut(c: FastCdc, a: &[u8], b: &[u8], m: usize, n: usize)
    requires
        c.wf(),
        call_ensures(FastCdc::boundary, (&c, a), m),
        call_ensures(FastCdc::boundary, (&c, b), n),
        a@.len() >= c.maximum,
        b@.len() >= c.maximum,
        a@.len() > c.minimum,
        b@.len() > c.minimum,
        forall|k: int| 0 <= k <= m && k < c.maximum ==> a@[k] == b@[k],
    ensures
        m == n,
{
    let end = even(c.maximum as int);
    assert forall|i: int| even(c.minimum as int) <= i <= m && i < end implies c.cuts(a@, i)
        == #[trigger] c.cuts(b@, i) by {
        same_rolled(c, a@, b@, i);
    }
    if n < m {
        if n < end {
            assert(c.cuts(b@, n as int));
            assert(!c.cuts(a@, n as int));
        }
    } else if m < n {
        if m < end {
            assert(c.cuts(a@, m as int));
            assert(!c.cuts(b@, m as int));
        }
    }
}

/// A chunker is had for sizes that ascend from more than zero, with a power of two
/// in the middle; nothing else is.
pub proof fn sizes_must_ascend(
    average: usize,
    minimum: usize,
    maximum: usize,
    normalization: usize,
    seed: u64,
    r: Result<FastCdc, ChunkerError>,
)
    requires
        call_ensures(FastCdc::new, (average, minimum, maximum, normalization, seed), r),
    ensures
        minimum == 0 || minimum > average || average > maximum ==> r is Err,
        !power_of_two(average as nat) ==> r is Err,
        power_of_two(average as nat) && 0 < minimum <= average <= maximum && exponent(
            average as nat,
        ) + normalization <= 25 && exponent(average as nat) >= normalization + 5 ==> r is Ok,
        r is Ok ==> r->Ok_0.minimum == minimum && r->Ok_0.average == average && r->Ok_0.maximum
            == maximum && r->Ok_0.seed == seed,
{
}

} // verus!
