use vstd::prelude::*;
use crate::workload::{ceil_div, Workload};

verus! {

/// Packed formats that a weight tensor may be stored in.
#[derive(Debug, Clone, Copy, PartialEq, Eq)]
pub enum Quantization {
    Unquantized,
    SInt8,
    SInt4,
    Float16,
}

/// Lanes of 8-bit signed integers in one 32-bit word.
pub const SINT8_PACK_SIZE: usize = 4;

/// Lanes of 4-bit signed integers in one 32-bit word.
pub const SINT4_PACK_SIZE: usize = 8;

/// Half-precision values in one 32-bit word.
pub const FLOAT16_PACK_SIZE: usize = 2;

/// Elements that share one scale factor.
pub const GROUP_SIZE: usize = 16;

/// Alignment in bytes of each section of a packed buffer.
pub const STORAGE_ALIGN: usize = 256;

/// `b` to the power `e`.
pub open spec fn pow_nat(b: int, e: nat) -> int
    decreases e,
{
    if e == 0 {
        1
    } else {
        b * pow_nat(b, (e - 1) as nat)
    }
}

/// The number whose digits in base `base` are `f`, least significant first.
pub open spec fn fields_value(f: Seq<int>, base: int) -> int
    decreases f.len(),
{
    if f.len() == 0 {
        0
    } else {
        f[0] + base * fields_value(f.drop_first(), base)
    }
}

/// The lowest `n` digits of `w` in base `base`, least significant first.
pub open spec fn fields_of(w: int, base: int, n: nat) -> Seq<int>
    decreases n,
{
    if n == 0 {
        Seq::empty()
    } else {
        seq![w % base].add(fields_of(w / base, base, (n - 1) as nat))
    }
}

/// Every digit lies in `0..base`.
pub open spec fn digits_in_range(f: Seq<int>, base: int) -> bool {
    forall|k: int| 0 <= k < f.len() ==> 0 <= #[trigger] f[k] < base
}

/// Groups of `width` consecutive digits, each group packed into one word.
pub open spec fn pack_fields(f: Seq<int>, width: nat, base: int) -> Seq<u32> {
    Seq::new(
        f.len() / width,
        |i: int| fields_value(f.subrange(width * i, width * i + width), base) as u32,
    )
}

/// The `width` digits of each word, word after word.
pub open spec fn unpack_fields(words: Seq<u32>, width: nat, base: int) -> Seq<int> {
    Seq::new(
        words.len() * width,
        |j: int| fields_of(words[j / (width as int)] as int, base, width)[j % (width as int)],
    )
}

/// Two's complement byte of an 8-bit lane.
pub open spec fn byte_of(x: i8) -> int {
    (x + 256) % 256
}

/// Low four bits of a lane in two's complement.
pub open spec fn nibble_of(x: i8) -> int {
    (x + 128) % 16
}

/// The signed value of a byte.
pub open spec fn signed_byte(b: int) -> int {
    if b >= 128 {
        b - 256
    } else {
        b
    }
}

/// The signed value of a nibble.
pub open spec fn signed_nibble(n: int) -> int {
    if n >= 8 {
        n - 16
    } else {
        n
    }
}

/// The words of 8-bit lanes packed four to a word, the first lane in the lowest byte.
pub open spec fn spec_pack_sint8(lanes: Seq<i8>) -> Seq<u32> {
    pack_fields(lanes.map_values(|x: i8| byte_of(x)), 4, 256)
}

/// The 8-bit lanes of packed words, four per word, lowest byte first.
pub open spec fn spec_unpack_sint8(words: Seq<u32>) -> Seq<i8> {
    unpack_fields(words, 4, 256).map_values(|b: int| signed_byte(b) as i8)
}

/// The words of 4-bit lanes packed eight to a word, the first lane in the lowest nibble.
pub open spec fn spec_pack_sint4(lanes: Seq<i8>) -> Seq<u32> {
    pack_fields(lanes.map_values(|x: i8| nibble_of(x)), 8, 16)
}

/// The 4-bit lanes of packed words, eight per word, lowest nibble first.
pub open spec fn spec_unpack_sint4(words: Seq<u32>) -> Seq<i8> {
    unpack_fields(words, 8, 16).map_values(|n: int| signed_nibble(n) as i8)
}

/// The words of 16-bit halves packed two to a word, the first half in the low bits.
pub open spec fn spec_pack_halves(halves: Seq<u16>) -> Seq<u32> {
    pack_fields(halves.map_values(|h: u16| h as int), 2, 65536)
}

/// The 16-bit halves of packed words, low half first.
pub open spec fn spec_unpack_halves(words: Seq<u32>) -> Seq<u16> {
    unpack_fields(words, 2, 65536).map_values(|h: int| h as u16)
}

proof fn lemma_fields_value_bound(f: Seq<int>, base: int)
    requires
        base >= 2,
        digits_in_range(f, base),
    ensures
        0 <= fields_value(f, base) < pow_nat(base, f.len()),
    decreases f.len(),
{
    if f.len() > 0 {
        let rest = f.drop_first();
        assert(digits_in_range(rest, base)) by {
            assert forall|k: int| 0 <= k < rest.len() implies 0 <= #[trigger] rest[k] < base by {
                assert(rest[k] == f[k + 1]);
            }
        }
        lemma_fields_value_bound(rest, base);
        let v = fields_value(rest, base);
        let p = pow_nat(base, rest.len());
        let d = f[0];
        assert(d + base * v < base * p) by (nonlinear_arith)
            requires
                0 <= d < base,
                0 <= v < p,
        ;
        assert(0 <= d + base * v) by (nonlinear_arith)
            requires
                0 <= d,
                0 <= v,
                base >= 2,
        ;
    }
}

proof fn lemma_fields_round_trip(f: Seq<int>, base: int)
    requires
        base >= 2,
        digits_in_range(f, base),
    ensures
        fields_of(fields_value(f, base), base, f.len()) == f,
    decreases f.len(),
{
    if f.len() > 0 {
        let rest = f.drop_first();
        assert(digits_in_range(rest, base)) by {
            assert forall|k: int| 0 <= k < rest.len() implies 0 <= #[trigger] rest[k] < base by {
                assert(rest[k] == f[k + 1]);
            }
        }
        lemma_fields_round_trip(rest, base);
        let v = fields_value(rest, base);
        let w = f[0] + base * v;
        vstd::arithmetic::div_mod::lemma_fundamental_div_mod_converse(w, base, v, f[0]);
        assert(fields_of(w, base, f.len()) =~= seq![f[0]].add(rest));
        assert(seq![f[0]].add(rest) =~= f);
    }
}

proof fn lemma_fields_of_len(w: int, base: int, n: nat)
    ensures
        fields_of(w, base, n).len() == n,
    decreases n,
{
    if n > 0 {
        lemma_fields_of_len(w / base, base, (n - 1) as nat);
    }
}

/// Unpacking packed digits gives the digits back.
proof fn lemma_unpack_pack(f: Seq<int>, width: nat, base: int)
    requires
        base >= 2,
        width > 0,
        f.len() % width == 0,
        digits_in_range(f, base),
        pow_nat(base, width) <= 0x1_0000_0000,
    ensures
        unpack_fields(pack_fields(f, width, base), width, base) == f,
{
    let words = pack_fields(f, width, base);
    let u = unpack_fields(words, width, base);
    let w = width as int;
    let fl = f.len() as int;
    let wl = words.len() as int;
    vstd::arithmetic::div_mod::lemma_fundamental_div_mod(fl, w);
    assert(fl % w == 0);
    assert(wl == fl / w);
    assert(wl * w == fl) by (nonlinear_arith)
        requires
            fl == w * (fl / w) + fl % w,
            fl % w == 0,
            wl == fl / w,
    ;
    assert forall|j: int| 0 <= j < fl implies #[trigger] u[j] == f[j] by {
        let i = j / w;
        let k = j % w;
        vstd::arithmetic::div_mod::lemma_fundamental_div_mod(j, w);
        assert(0 <= i < wl) by (nonlinear_arith)
            requires
                j == w * i + k,
                0 <= k < w,
                0 <= j < wl * w,
                w > 0,
        ;
        assert(w * i + w <= fl) by (nonlinear_arith)
            requires
                0 <= i < wl,
                wl * w == fl,
                w > 0,
        ;
        let g = f.subrange(w * i, w * i + w);
        assert(digits_in_range(g, base)) by {
            assert forall|m: int| 0 <= m < g.len() implies 0 <= #[trigger] g[m] < base by {
                assert(g[m] == f[w * i + m]);
            }
        }
        lemma_fields_value_bound(g, base);
        lemma_fields_round_trip(g, base);
        assert(words[i] as int == fields_value(g, base));
        assert(g[k] == f[j]);
    }
    assert(u =~= f);
}

/// Packs digits `f`, each below `base`, into one word, the first digit lowest.
fn pack_word(f: &[u32], base: u32) -> (r: u32)
    requires
        base >= 2,
        digits_in_range(f@.map_values(|d: u32| d as int), base as int),
        pow_nat(base as int, f@.len()) <= 0x1_0000_0000,
    ensures
        r == fields_value(f@.map_values(|d: u32| d as int), base as int),
{
    let ghost fs = f@.map_values(|d: u32| d as int);
    let n = f.len();
    let mut acc: u64 = 0;
    let mut k: usize = n;
    proof {
        assert(fs.subrange(n as int, n as int) =~= Seq::<int>::empty());
    }
    while k > 0
        invariant
            n == f@.len(),
            fs == f@.map_values(|d: u32| d as int),
            k <= n,
            base >= 2,
            digits_in_range(fs, base as int),
            pow_nat(base as int, n as nat) <= 0x1_0000_0000,
            acc == fields_value(fs.subrange(k as int, n as int), base as int),
        decreases k,
    {
        let ghost tail = fs.subrange(k - 1, n as int);
        proof {
            assert(tail.drop_first() =~= fs.subrange(k as int, n as int));
            assert(digits_in_range(tail, base as int)) by {
                assert forall|m: int| 0 <= m < tail.len() implies 0 <= #[trigger] tail[m] < base by {
                    assert(tail[m] == fs[k - 1 + m]);
                }
            }
            lemma_fields_value_bound(tail, base as int);
            lemma_pow_monotone(base as int, tail.len(), n as nat);
            assert(tail[0] == f@[k - 1] as int);
            assert(acc * base <= fields_value(tail, base as int)) by (nonlinear_arith)
                requires
                    fields_value(tail, base as int) == tail[0] + base * acc,
                    tail[0] >= 0,
            ;
        }
        acc = f[k - 1] as u64 + base as u64 * acc;
        k = k - 1;
    }
    proof {
        assert(fs.subrange(0, n as int) =~= fs);
        lemma_fields_value_bound(fs, base as int);
    }
    acc as u32
}

proof fn lemma_pow_positive(b: int, e: nat)
    requires
        b >= 1,
    ensures
        pow_nat(b, e) >= 1,
    decreases e,
{
    if e > 0 {
        lemma_pow_positive(b, (e - 1) as nat);
        let p = pow_nat(b, (e - 1) as nat);
        assert(b * p >= 1) by (nonlinear_arith)
            requires
                b >= 1,
                p >= 1,
        ;
    }
}

proof fn lemma_pow_monotone(b: int, e1: nat, e2: nat)
    requires
        b >= 1,
        e1 <= e2,
    ensures
        1 <= pow_nat(b, e1) <= pow_nat(b, e2),
    decreases e2,
{
    lemma_pow_positive(b, e1);
    if e1 < e2 {
        lemma_pow_monotone(b, e1, (e2 - 1) as nat);
        let p = pow_nat(b, (e2 - 1) as nat);
        assert(p <= b * p) by (nonlinear_arith)
            requires
                b >= 1,
                p >= 1,
        ;
    }
}

/// Packs `digits`, each below `base`, `width` to a word.
fn pack_digits(digits: &Vec<u32>, width: usize, base: u32) -> (r: Vec<u32>)
    requires
        base >= 2,
        width > 0,
        digits@.len() % (width as nat) == 0,
        digits_in_range(digits@.map_values(|d: u32| d as int), base as int),
        pow_nat(base as int, width as nat) <= 0x1_0000_0000,
    ensures
        r@ == pack_fields(digits@.map_values(|d: u32| d as int), width as nat, base as int),
{
    let ghost fs = digits@.map_values(|d: u32| d as int);
    let n_words = digits.len() / width;
    let mut out: Vec<u32> = Vec::new();
    let mut i: usize = 0;
    while i < n_words
        invariant
            fs == digits@.map_values(|d: u32| d as int),
            n_words == digits@.len() / (width as nat),
            digits@.len() <= usize::MAX,
            digits@.len() % (width as nat) == 0,
            width > 0,
            base >= 2,
            digits_in_range(fs, base as int),
            pow_nat(base as int, width as nat) <= 0x1_0000_0000,
            i <= n_words,
            out@.len() == i,
            forall|m: int| 0 <= m < i ==> #[trigger] out@[m] == pack_fields(fs, width as nat, base as int)[m],
        decreases n_words - i,
    {
        proof {
            let wi = width as int;
            let ii = i as int;
            let nw = n_words as int;
            let len = digits@.len() as int;
            vstd::arithmetic::div_mod::lemma_fundamental_div_mod(len, wi);
            assert(len % wi == 0);
            assert(nw == len / wi);
            assert(len == wi * nw) by (nonlinear_arith)
                requires
                    len == wi * (len / wi) + len % wi,
                    len % wi == 0,
                    nw == len / wi,
            ;
            assert(wi * ii + wi <= len) by (nonlinear_arith)
                requires
                    0 <= ii < nw,
                    len == wi * nw,
                    wi > 0,
            ;
        }
        assert(width * i + width <= digits@.len());
        let start = width * i;
        let mut chunk: Vec<u32> = Vec::new();
        let mut k: usize = 0;
        while k < width
            invariant
                fs == digits@.map_values(|d: u32| d as int),
                start + width <= digits@.len(),
                digits@.len() <= usize::MAX,
                k <= width,
                chunk@.len() == k,
                forall|m: int| 0 <= m < k ==> #[trigger] chunk@[m] == digits@[start + m],
            decreases width - k,
        {
            chunk.push(digits[start + k]);
            k = k + 1;
        }
        let ghost g = fs.subrange(start as int, start + width);
        proof {
            assert(chunk@.map_values(|d: u32| d as int) =~= g);
            assert(digits_in_range(g, base as int)) by {
                assert forall|m: int| 0 <= m < g.len() implies 0 <= #[trigger] g[m] < base by {
                    assert(g[m] == fs[start + m]);
                }
            }
        }
        let w = pack_word(chunk.as_slice(), base);
        proof {
            assert(fs.len() == digits@.len());
            assert(w == pack_fields(fs, width as nat, base as int)[i as int]);
        }
        out.push(w);
        i = i + 1;
    }
    assert(out@ =~= pack_fields(fs, width as nat, base as int));
    out
}

proof fn lemma_fields_of_step(w: int, base: int, n: nat)
    requires
        n > 0,
    ensures
        fields_of(w, base, n)[0] == w % base,
        fields_of(w, base, n).drop_first() == fields_of(w / base, base, (n - 1) as nat),
{
    let s = fields_of(w, base, n);
    assert(s == seq![w % base].add(fields_of(w / base, base, (n - 1) as nat)));
    assert(s.drop_first() =~= fields_of(w / base, base, (n - 1) as nat));
}

/// The `width` digits in base `base` of each word, lowest first, word after word.
fn unpack_digits(words: &[u32], width: usize, base: u32) -> (r: Vec<u32>)
    requires
        base >= 2,
        width > 0,
        words@.len() * width <= usize::MAX,
    ensures
        r@.map_values(|d: u32| d as int) == unpack_fields(words@, width as nat, base as int),
        forall|m: int| 0 <= m < r@.len() ==> #[trigger] r@[m] < base,
{
    let ghost target = unpack_fields(words@, width as nat, base as int);
    let mut out: Vec<u32> = Vec::new();
    let mut i: usize = 0;
    while i < words.len()
        invariant
            target == unpack_fields(words@, width as nat, base as int),
            words@.len() * width <= usize::MAX,
            width > 0,
            base >= 2,
            i <= words@.len(),
            target.len() == words@.len() * width,
            out@.len() == i * width,
            out@.len() <= target.len(),
            forall|m: int| 0 <= m < out@.len() ==> #[trigger] out@[m] as int == target[m],
            forall|m: int| 0 <= m < out@.len() ==> #[trigger] out@[m] < base,
        decreases words@.len() - i,
    {
        let w = words[i];
        let mut cur: u32 = w;
        let mut k: usize = 0;
        proof {
            lemma_fields_of_len(w as int, base as int, width as nat);
            assert(fields_of(w as int, base as int, width as nat).subrange(0, width as int)
                =~= fields_of(w as int, base as int, width as nat));
            assert((i + 1) * width <= words@.len() * width) by (nonlinear_arith)
                requires
                    i < words@.len(),
            ;
        }
        while k < width
            invariant
                target == unpack_fields(words@, width as nat, base as int),
                w == words@[i as int],
                i < words@.len(),
                (i + 1) * width <= usize::MAX,
                width > 0,
                base >= 2,
                k <= width,
                target.len() == words@.len() * width,
                out@.len() == i * width + k,
                forall|m: int| 0 <= m < out@.len() ==> #[trigger] out@[m] < base,
                fields_of(cur as int, base as int, (width - k) as nat) == fields_of(
                    w as int,
                    base as int,
                    width as nat,
                ).subrange(k as int, width as int),
                forall|m: int| 0 <= m < out@.len() ==> #[trigger] out@[m] as int == target[m],
            decreases width - k,
        {
            let ghost fw = fields_of(w as int, base as int, width as nat);
            proof {
                lemma_fields_of_len(w as int, base as int, width as nat);
                lemma_fields_of_step(cur as int, base as int, (width - k) as nat);
                let j = (i * width + k) as int;
                let wi = width as int;
                assert(j / wi == i && j % wi == k) by {
                    vstd::arithmetic::div_mod::lemma_fundamental_div_mod_converse(
                        j,
                        wi,
                        i as int,
                        k as int,
                    );
                }
                assert(j < words@.len() * wi) by (nonlinear_arith)
                    requires
                        j == i * wi + k,
                        k < wi,
                        i < words@.len(),
                ;
                assert(target[j] == fw[k as int]);
                assert(fw.subrange(k as int, wi)[0] == fw[k as int]);
                assert(fw.subrange(k as int, wi).drop_first() =~= fw.subrange(k + 1, wi));
            }
            out.push(cur % base);
            cur = cur / base;
            k = k + 1;
        }
        assert(i * width + width == (i + 1) * width) by (nonlinear_arith);
        assert((i + 1) * width <= words@.len() * width) by (nonlinear_arith)
            requires
                i < words@.len(),
        ;
        i = i + 1;
    }
    proof {
        assert(target.len() == words@.len() * width);
    }
    assert(out@.map_values(|d: u32| d as int) =~= target);
    out
}

proof fn lemma_pow_256_4()
    ensures
        pow_nat(256, 4) == 0x1_0000_0000,
{
    assert(pow_nat(256, 0) == 1);
    assert(pow_nat(256, 1) == 256);
    assert(pow_nat(256, 2) == 65536);
    assert(pow_nat(256, 3) == 16777216);
    assert(pow_nat(256, 4) == 0x1_0000_0000);
}

proof fn lemma_pow_16_8()
    ensures
        pow_nat(16, 8) == 0x1_0000_0000,
{
    assert(pow_nat(16, 0) == 1);
    assert(pow_nat(16, 1) == 16);
    assert(pow_nat(16, 2) == 256);
    assert(pow_nat(16, 3) == 4096);
    assert(pow_nat(16, 4) == 65536);
    assert(pow_nat(16, 5) == 1048576);
    assert(pow_nat(16, 6) == 16777216);
    assert(pow_nat(16, 7) == 268435456);
    assert(pow_nat(16, 8) == 0x1_0000_0000);
}

proof fn lemma_pow_65536_2()
    ensures
        pow_nat(65536, 2) == 0x1_0000_0000,
{
    assert(pow_nat(65536, 0) == 1);
    assert(pow_nat(65536, 1) == 65536);
    assert(pow_nat(65536, 2) == 0x1_0000_0000);
}

/// Packs 8-bit signed lanes four to a 32-bit word, the first lane in the lowest byte.
pub fn pack_sint8(lanes: &[i8]) -> (r: Vec<u32>)
    requires
        lanes@.len() % 4 == 0,
    ensures
        r@ == spec_pack_sint8(lanes@),
        r@.len() == lanes@.len() / 4,
{
    let mut digits: Vec<u32> = Vec::new();
    let mut i: usize = 0;
    while i < lanes.len()
        invariant
            i <= lanes@.len(),
            digits@.len() == i,
            forall|m: int| 0 <= m < i ==> #[trigger] digits@[m] as int == byte_of(lanes@[m]),
        decreases lanes@.len() - i,
    {
        digits.push(((lanes[i] as i32 + 256) as u32) % 256);
        i = i + 1;
    }
    let ghost bytes = lanes@.map_values(|x: i8| byte_of(x));
    proof {
        assert(digits@.map_values(|d: u32| d as int) =~= bytes);
        lemma_pow_256_4();
    }
    pack_digits(&digits, SINT8_PACK_SIZE, 256)
}

/// The 8-bit signed lanes of packed words, four per word, lowest byte first.
pub fn unpack_sint8(words: &[u32]) -> (r: Vec<i8>)
    requires
        words@.len() * 4 <= usize::MAX,
    ensures
        r@ == spec_unpack_sint8(words@),
        r@.len() == words@.len() * 4,
{
    let digits = unpack_digits(words, SINT8_PACK_SIZE, 256);
    let ghost u = unpack_fields(words@, 4, 256);
    let mut out: Vec<i8> = Vec::new();
    let mut i: usize = 0;
    assert(digits@.len() == u.len()) by {
        assert(digits@.map_values(|d: u32| d as int).len() == digits@.len());
    }
    while i < digits.len()
        invariant
            u == unpack_fields(words@, 4, 256),
            digits@.map_values(|d: u32| d as int) == u,
            forall|m: int| 0 <= m < digits@.len() ==> #[trigger] digits@[m] < 256,
            i <= digits@.len(),
            out@.len() == i,
            forall|m: int| 0 <= m < i ==> #[trigger] out@[m] == signed_byte(u[m]) as i8,
        decreases digits@.len() - i,
    {
        let b = digits[i];
        proof {
            assert(u[i as int] == b as int);
            assert(u[i as int] == unpack_fields(words@, 4, 256)[i as int]);
        }
        let lane: i8 = if b >= 128 {
            (b as i32 - 256) as i8
        } else {
            b as i8
        };
        out.push(lane);
        i = i + 1;
    }
    assert(out@ =~= spec_unpack_sint8(words@));
    out
}

/// Packs 4-bit signed lanes eight to a 32-bit word, the first lane in the lowest nibble;
/// each lane keeps its low four bits.
pub fn pack_sint4(lanes: &[i8]) -> (r: Vec<u32>)
    requires
        lanes@.len() % 8 == 0,
    ensures
        r@ == spec_pack_sint4(lanes@),
        r@.len() == lanes@.len() / 8,
{
    let mut digits: Vec<u32> = Vec::new();
    let mut i: usize = 0;
    while i < lanes.len()
        invariant
            i <= lanes@.len(),
            digits@.len() == i,
            forall|m: int| 0 <= m < i ==> #[trigger] digits@[m] as int == nibble_of(lanes@[m]),
        decreases lanes@.len() - i,
    {
        digits.push(((lanes[i] as i32 + 128) as u32) % 16);
        i = i + 1;
    }
    let ghost nibbles = lanes@.map_values(|x: i8| nibble_of(x));
    proof {
        assert(digits@.map_values(|d: u32| d as int) =~= nibbles);
        lemma_pow_16_8();
    }
    pack_digits(&digits, SINT4_PACK_SIZE, 16)
}

/// The 4-bit signed lanes of packed words, eight per word, lowest nibble first.
pub fn unpack_sint4(words: &[u32]) -> (r: Vec<i8>)
    requires
        words@.len() * 8 <= usize::MAX,
    ensures
        r@ == spec_unpack_sint4(words@),
        r@.len() == words@.len() * 8,
{
    let digits = unpack_digits(words, SINT4_PACK_SIZE, 16);
    let ghost u = unpack_fields(words@, 8, 16);
    let mut out: Vec<i8> = Vec::new();
    let mut i: usize = 0;
    assert(digits@.len() == u.len()) by {
        assert(digits@.map_values(|d: u32| d as int).len() == digits@.len());
    }
    while i < digits.len()
        invariant
            u == unpack_fields(words@, 8, 16),
            digits@.map_values(|d: u32| d as int) == u,
            forall|m: int| 0 <= m < digits@.len() ==> #[trigger] digits@[m] < 16,
            i <= digits@.len(),
            out@.len() == i,
            forall|m: int| 0 <= m < i ==> #[trigger] out@[m] == signed_nibble(u[m]) as i8,
        decreases digits@.len() - i,
    {
        let n = digits[i];
        proof {
            assert(u[i as int] == n as int);
        }
        let lane: i8 = if n >= 8 {
            (n as i32 - 16) as i8
        } else {
            n as i8
        };
        out.push(lane);
        i = i + 1;
    }
    assert(out@ =~= spec_unpack_sint4(words@));
    out
}

/// Packs 16-bit halves two to a 32-bit word, the first half in the low bits.
pub fn pack_halves(halves: &[u16]) -> (r: Vec<u32>)
    requires
        halves@.len() % 2 == 0,
    ensures
        r@ == spec_pack_halves(halves@),
        r@.len() == halves@.len() / 2,
{
    let mut digits: Vec<u32> = Vec::new();
    let mut i: usize = 0;
    while i < halves.len()
        invariant
            i <= halves@.len(),
            digits@.len() == i,
            forall|m: int| 0 <= m < i ==> #[trigger] digits@[m] as int == halves@[m] as int,
        decreases halves@.len() - i,
    {
        digits.push(halves[i] as u32);
        i = i + 1;
    }
    let ghost hs = halves@.map_values(|h: u16| h as int);
    proof {
        assert(digits@.map_values(|d: u32| d as int) =~= hs);
        lemma_pow_65536_2();
    }
    pack_digits(&digits, FLOAT16_PACK_SIZE, 65536)
}

/// The 16-bit halves of packed words, low half first.
pub fn unpack_halves(words: &[u32]) -> (r: Vec<u16>)
    requires
        words@.len() * 2 <= usize::MAX,
    ensures
        r@ == spec_unpack_halves(words@),
        r@.len() == words@.len() * 2,
{
    let digits = unpack_digits(words, FLOAT16_PACK_SIZE, 65536);
    let ghost u = unpack_fields(words@, 2, 65536);
    let mut out: Vec<u16> = Vec::new();
    let mut i: usize = 0;
    assert(digits@.len() == u.len()) by {
        assert(digits@.map_values(|d: u32| d as int).len() == digits@.len());
    }
    while i < digits.len()
        invariant
            u == unpack_fields(words@, 2, 65536),
            digits@.map_values(|d: u32| d as int) == u,
            forall|m: int| 0 <= m < digits@.len() ==> #[trigger] digits@[m] < 65536,
            i <= digits@.len(),
            out@.len() == i,
            forall|m: int| 0 <= m < i ==> #[trigger] out@[m] == u[m] as u16,
        decreases digits@.len() - i,
    {
        let h = digits[i];
        proof {
            assert(u[i as int] == h as int);
        }
        out.push(h as u16);
        i = i + 1;
    }
    assert(out@ =~= spec_unpack_halves(words@));
    out
}

/// Unpacking packed 8-bit lanes gives every lane back.
pub proof fn lemma_sint8_round_trip(lanes: Seq<i8>)
    requires
        lanes.len() % 4 == 0,
    ensures
        spec_unpack_sint8(spec_pack_sint8(lanes)) == lanes,
{
    let f = lanes.map_values(|x: i8| byte_of(x));
    assert(digits_in_range(f, 256));
    lemma_pow_256_4();
    lemma_unpack_pack(f, 4, 256);
    assert(spec_unpack_sint8(spec_pack_sint8(lanes)) =~= lanes);
}

/// Unpacking packed 4-bit lanes gives back every lane that fits in four bits.
pub proof fn lemma_sint4_round_trip(lanes: Seq<i8>)
    requires
        lanes.len() % 8 == 0,
        forall|k: int| 0 <= k < lanes.len() ==> -8 <= #[trigger] lanes[k] <= 7,
    ensures
        spec_unpack_sint4(spec_pack_sint4(lanes)) == lanes,
{
    let f = lanes.map_values(|x: i8| nibble_of(x));
    assert(digits_in_range(f, 16));
    lemma_pow_16_8();
    lemma_unpack_pack(f, 8, 16);
    assert(spec_unpack_sint4(spec_pack_sint4(lanes)) =~= lanes);
}

/// Unpacking packed halves gives every half back.
pub proof fn lemma_halves_round_trip(halves: Seq<u16>)
    requires
        halves.len() % 2 == 0,
    ensures
        spec_unpack_halves(spec_pack_halves(halves)) == halves,
{
    let f = halves.map_values(|h: u16| h as int);
    assert(digits_in_range(f, 65536));
    lemma_pow_65536_2();
    lemma_unpack_pack(f, 2, 65536);
    assert(spec_unpack_halves(spec_pack_halves(halves)) =~= halves);
}

/// Packing depends on the lanes alone: equal lanes give equal words in every format.
pub proof fn lemma_pack_deterministic(a: Seq<i8>, b: Seq<i8>)
    requires
        a == b,
    ensures
        spec_pack_sint8(a) == spec_pack_sint8(b),
        spec_pack_sint4(a) == spec_pack_sint4(b),
{
}

/// A byte range of a device buffer that is bound on its own.
#[derive(Debug, Clone, Copy, PartialEq, Eq)]
pub struct BufferSegment {
    pub offset: u64,
    pub size: u64,
}

/// `n` rounded up to a multiple of `align`.
pub fn align_up(n: usize, align: usize) -> (r: usize)
    requires
        align > 0,
        n + align <= usize::MAX,
    ensures
        r == ceil_div(n as int, align as int) * align,
        r >= n,
        r % align == 0,
{
    let q = Workload::ceil(n, align);
    proof {
        if n > 0 {
            crate::workload::lemma_ceil_bounds(n as int, align as int);
        } else {
            assert(ceil_div(0, align as int) == 0) by {
                vstd::arithmetic::div_mod::lemma_fundamental_div_mod_converse(
                    align as int - 1,
                    align as int,
                    0,
                    align as int - 1,
                );
            }
        }
        vstd::arithmetic::div_mod::lemma_mod_multiples_basic(q as int, align as int);
    }
    q * align
}

/// Words of one section of a packed buffer, zero-padded to a multiple of the storage
/// alignment.
pub open spec fn padded_section(words: Seq<u32>) -> Seq<u32> {
    let per = (STORAGE_ALIGN / 4) as int;
    words.add(Seq::new((ceil_div(words.len() as int, per) * per - words.len()) as nat, |i: int| 0u32))
}

/// The buffer of an int8-packed tensor: the packed words, then the table of scale factors
/// (as the bits of 32-bit floats), each section padded to the storage alignment.
pub fn assemble_sint8(packed: &[u32], scales: &[u32]) -> (r: Vec<u32>)
    requires
        packed@.len() + scales@.len() + 4 * STORAGE_ALIGN <= usize::MAX,
    ensures
        r@ == padded_section(packed@).add(padded_section(scales@)),
{
    let mut out: Vec<u32> = Vec::new();
    append_padded(&mut out, packed);
    append_padded(&mut out, scales);
    assert(out@ =~= padded_section(packed@).add(padded_section(scales@)));
    out
}

fn append_padded(out: &mut Vec<u32>, words: &[u32])
    requires
        old(out)@.len() + words@.len() + 2 * STORAGE_ALIGN <= usize::MAX,
    ensures
        final(out)@ == old(out)@.add(padded_section(words@)),
        final(out)@.len() <= old(out)@.len() + words@.len() + STORAGE_ALIGN,
{
    let ghost start = out@;
    let mut i: usize = 0;
    while i < words.len()
        invariant
            start == old(out)@,
            i <= words@.len(),
            out@ == start.add(words@.subrange(0, i as int)),
        decreases words@.len() - i,
    {
        out.push(words[i]);
        i = i + 1;
        assert(out@ =~= start.add(words@.subrange(0, i as int)));
    }
    assert(words@.subrange(0, words@.len() as int) =~= words@);
    let per: usize = STORAGE_ALIGN / 4;
    let total = align_up(words.len(), per);
    let mut k: usize = words.len();
    while k < total
        invariant
            start == old(out)@,
            words@.len() <= k <= total,
            out@ == start.add(words@).add(Seq::new((k - words@.len()) as nat, |i: int| 0u32)),
        decreases total - k,
    {
        out.push(0u32);
        k = k + 1;
        assert(out@ =~= start.add(words@).add(Seq::new((k - words@.len()) as nat, |i: int| 0u32)));
    }
    proof {
        crate::workload::lemma_ceil_bounds_zero_ok(words@.len() as int, per as int);
    }
    assert(out@ =~= start.add(padded_section(words@)));
}

/// The two segments of an int8-packed tensor of `numel` elements: the packed words at
/// the start, then the scale factors, one 4-byte float per group, at the next multiple
/// of the storage alignment.
pub fn sint8_segments(numel: usize) -> (r: Vec<BufferSegment>)
    requires
        numel + STORAGE_ALIGN <= u64::MAX,
        numel + STORAGE_ALIGN <= usize::MAX,
    ensures
        r@ == seq![
            BufferSegment { offset: 0, size: numel as u64 },
            BufferSegment {
                offset: (ceil_div(numel as int, STORAGE_ALIGN as int) * STORAGE_ALIGN) as u64,
                size: (numel as int / GROUP_SIZE as int * 4) as u64,
            },
        ],
{
    let scales_offset = align_up(numel, STORAGE_ALIGN);
    let mut r: Vec<BufferSegment> = Vec::new();
    r.push(BufferSegment { offset: 0, size: numel as u64 });
    r.push(BufferSegment { offset: scales_offset as u64, size: (numel / GROUP_SIZE * 4) as u64 });
    assert(r@ =~= seq![
        BufferSegment { offset: 0, size: numel as u64 },
        BufferSegment {
            offset: (ceil_div(numel as int, STORAGE_ALIGN as int) * STORAGE_ALIGN) as u64,
            size: (numel as int / GROUP_SIZE as int * 4) as u64,
        },
    ]);
    r
}

} // verus!
