use vstd::prelude::*;
use vstd::arithmetic::div_mod::{lemma_fundamental_div_mod, lemma_mod_bound};
use crate::block::{new_uuid_string, names_distinct, Block};
use crate::digest::{sha256_digest, sha256_hex};

verus! {

/// Upper bound on the size of one block: 4 MiB.
pub const BLOCK_MAX_SIZE: usize = 4 * 1024 * 1024;

/// `n / m` rounded up.
pub open spec fn ceil_div(n: nat, m: nat) -> nat {
    if m == 0 {
        0
    } else {
        ((n + m - 1) / m as int) as nat
    }
}

pub open spec fn min(a: int, b: int) -> int {
    if a < b {
        a
    } else {
        b
    }
}

/// `blocks` is `data` split into consecutive runs of `m` bytes, the last run possibly shorter.
pub open spec fn is_cut_of(blocks: Seq<Seq<u8>>, data: Seq<u8>, m: nat) -> bool {
    &&& blocks.len() == ceil_div(data.len(), m)
    &&& forall|i: int|
        0 <= i < blocks.len() ==> #[trigger] blocks[i] == data.subrange(
            i * m,
            min((i + 1) * m, data.len() as int),
        )
}

/// The bytes of each block, in order.
pub open spec fn block_datas(blocks: Seq<Block>) -> Seq<Seq<u8>> {
    blocks.map_values(|b: Block| b.data@)
}

/// The parts laid end to end.
pub open spec fn concat(parts: Seq<Seq<u8>>) -> Seq<u8>
    decreases parts.len(),
{
    if parts.len() == 0 {
        Seq::empty()
    } else {
        concat(parts.drop_last()) + parts.last()
    }
}

proof fn lemma_ceil_div_bounds(n: nat, m: nat)
    requires
        m > 0,
    ensures
        ceil_div(n, m) * m >= n,
        ceil_div(n, m) > 0 ==> (ceil_div(n, m) - 1) * m < n,
        ceil_div(n, m) == 0 <==> n == 0,
{
    let x = n + m - 1;
    let q = x / (m as int);
    lemma_fundamental_div_mod(x, m as int);
    lemma_mod_bound(x, m as int);
    assert(m * q == q * m) by (nonlinear_arith);
    assert((q - 1) * m == q * m - m) by (nonlinear_arith);
    if q < 0 {
        assert(q * m < 0) by (nonlinear_arith)
            requires
                q < 0,
                m > 0,
        ;
    }
}

proof fn lemma_ceil_div_exact(n: nat, m: nat, k: nat)
    requires
        m > 0,
        k * m >= n,
        k > 0 ==> (k - 1) * m < n,
    ensures
        ceil_div(n, m) == k,
{
    lemma_ceil_div_bounds(n, m);
    let c = ceil_div(n, m);
    if c < k {
        assert(c * m <= (k - 1) * m) by (nonlinear_arith)
            requires
                c < k,
                m > 0,
        ;
    } else if c > k {
        assert(k * m <= (c - 1) * m) by (nonlinear_arith)
            requires
                c > k,
                m > 0,
        ;
    }
}

/// Whether no block of `blocks` is named `name`.
fn name_unused(blocks: &Vec<Block>, name: &String) -> (r: bool)
    ensures
        r == forall|i: int| 0 <= i < blocks@.len() ==> (#[trigger] blocks@[i]).name@ != name@,
{
    let mut i: usize = 0;
    while i < blocks.len()
        invariant
            i <= blocks@.len(),
            forall|k: int| 0 <= k < i ==> (#[trigger] blocks@[k]).name@ != name@,
        decreases blocks@.len() - i,
    {
        if blocks[i].name == *name {
            return false;
        }
        i = i + 1;
    }
    true
}

/// Splits `data` into blocks of at most `max_block_size` bytes, each under a fresh
/// name, and returns them with the digest of each block. `None` when no fresh name
/// can be drawn, or two names of the batch collide.
pub fn cut(data: &[u8], max_block_size: usize) -> (r: Option<(Vec<Block>, Vec<String>)>)
    requires
        max_block_size > 0,
    ensures
        r matches Some(c) ==> {
            &&& is_cut_of(block_datas(c.0@), data@, max_block_size as nat)
            &&& c.1@.len() == c.0@.len()
            &&& forall|i: int| 0 <= i < c.1@.len() ==> #[trigger] c.1@[i]@ == sha256_hex(c.0@[i].data@)
            &&& forall|i: int| 0 <= i < c.0@.len() ==> (#[trigger] c.0@[i]).name@.len() == 36
            &&& names_distinct(c.0@)
        },
{
    let m = max_block_size;
    let data_len = data.len();
    let mut blocks: Vec<Block> = Vec::new();
    let mut blocks_hash: Vec<String> = Vec::new();
    let mut index: usize = 0;
    while index < data_len
        invariant
            m == max_block_size,
            m > 0,
            data_len == data@.len(),
            index <= data_len,
            blocks@.len() == 0 ==> index == 0,
            blocks_hash@.len() == blocks@.len(),
            index < data_len ==> index == blocks@.len() * m,
            blocks@.len() > 0 ==> index == min(blocks@.len() * m, data_len as int),
            blocks@.len() > 0 ==> (blocks@.len() - 1) * m < data_len,
            forall|i: int|
                0 <= i < blocks@.len() ==> #[trigger] blocks@[i].data@ == data@.subrange(
                    i * m,
                    min((i + 1) * m, data_len as int),
                ),
            forall|i: int|
                0 <= i < blocks@.len() ==> #[trigger] blocks_hash@[i]@ == sha256_hex(
                    blocks@[i].data@,
                ),
            forall|i: int| 0 <= i < blocks@.len() ==> (#[trigger] blocks@[i]).name@.len() == 36,
            names_distinct(blocks@),
        decreases data_len - index,
    {
        let ghost k = blocks@.len() as int;
        let remaining = data_len - index;
        let take = if remaining > m {
            m
        } else {
            remaining
        };
        let end = index + take;
        proof {
            assert((k + 1) * m == k * m + m) by (nonlinear_arith);
            assert(end == min((k + 1) * m, data_len as int));
        }
        let chunk = vstd::slice::slice_to_vec(vstd::slice::slice_subrange(data, index, end));
        let hash = sha256_digest(chunk.as_slice());
        let name = match new_uuid_string() {
            Some(n) => n,
            None => {
                return None;
            },
        };
        if !name_unused(&blocks, &name) {
            return None;
        }
        let block = Block::new(name, chunk);
        blocks.push(block);
        blocks_hash.push(hash);
        index = end;
    }
    proof {
        let n = blocks@.len();
        assert(index == data_len);
        if n == 0 {
            assert(n * m == 0) by (nonlinear_arith)
                requires
                    n == 0,
            ;
        } else {
            assert(index == min(n * m, data_len as int));
            assert(n * m >= data_len);
        }
        lemma_ceil_div_exact(data_len as nat, m as nat, n);
        assert(block_datas(blocks@).len() == n);
        assert forall|i: int| 0 <= i < n implies #[trigger] block_datas(blocks@)[i] == data@.subrange(
            i * m,
            min((i + 1) * m, data_len as int),
        ) by {
            assert(block_datas(blocks@)[i] == blocks@[i].data@);
        }
    }
    Some((blocks, blocks_hash))
}

/// The bytes of all blocks, concatenated in order.
pub fn merge(blocks: &Vec<Block>) -> (r: Vec<u8>)
    ensures
        r@ == concat(block_datas(blocks@)),
{
    let mut out: Vec<u8> = Vec::new();
    let mut i: usize = 0;
    while i < blocks.len()
        invariant
            i <= blocks@.len(),
            out@ == concat(block_datas(blocks@.subrange(0, i as int))),
        decreases blocks@.len() - i,
    {
        let data = &blocks[i].data;
        let ghost before = out@;
        let mut j: usize = 0;
        while j < data.len()
            invariant
                j <= data@.len(),
                out@ == before + data@.subrange(0, j as int),
            decreases data@.len() - j,
        {
            out.push(data[j]);
            assert(out@ =~= before + data@.subrange(0, j + 1));
            j = j + 1;
        }
        proof {
            let pre = blocks@.subrange(0, i as int);
            let post = blocks@.subrange(0, i + 1);
            assert(post.drop_last() =~= pre);
            assert(block_datas(post).drop_last() =~= block_datas(pre));
            assert(data@.subrange(0, j as int) =~= data@);
        }
        i = i + 1;
    }
    assert(blocks@.subrange(0, i as int) =~= blocks@);
    out
}

proof fn lemma_concat_prefix(blocks: Seq<Seq<u8>>, data: Seq<u8>, m: nat, k: int)
    requires
        m > 0,
        is_cut_of(blocks, data, m),
        0 <= k <= blocks.len(),
    ensures
        concat(blocks.subrange(0, k)) == data.subrange(0, min(k * m, data.len() as int)),
    decreases k,
{
    let n = blocks.len();
    lemma_ceil_div_bounds(data.len(), m);
    if k == 0 {
        assert(k * m == 0) by (nonlinear_arith)
            requires
                k == 0,
        ;
        assert(concat(blocks.subrange(0, 0)) =~= data.subrange(0, 0));
    } else {
        let j = k - 1;
        lemma_concat_prefix(blocks, data, m, j);
        assert(blocks.subrange(0, k).drop_last() =~= blocks.subrange(0, j));
        assert(concat(blocks.subrange(0, k)) == concat(blocks.subrange(0, j)) + blocks[j]);
        assert(0 <= j * m) by (nonlinear_arith)
            requires
                j >= 0,
        ;
        assert(j * m <= (n - 1) * m) by (nonlinear_arith)
            requires
                j <= n - 1,
                m > 0,
        ;
        assert(blocks[j] == data.subrange(j * m, min((j + 1) * m, data.len() as int)));
        assert((j + 1) * m == j * m + m) by (nonlinear_arith);
        assert(k * m == j * m + m) by (nonlinear_arith)
            requires
                k == j + 1,
        ;
        assert(j * m < data.len());
        assert(data.subrange(0, j * m) + data.subrange(j * m, min(k * m, data.len() as int))
            =~= data.subrange(0, min(k * m, data.len() as int)));
    }
}

/// Cutting a buffer into blocks and concatenating the blocks in order gives the buffer
/// back, so the digest of the reconstruction is the digest of the buffer.
pub proof fn lemma_merge_cut_round_trip(data: Seq<u8>, m: nat, blocks: Seq<Seq<u8>>)
    requires
        m > 0,
        is_cut_of(blocks, data, m),
    ensures
        concat(blocks) == data,
        sha256_hex(concat(blocks)) == sha256_hex(data),
{
    lemma_ceil_div_bounds(data.len(), m);
    lemma_concat_prefix(blocks, data, m, blocks.len() as int);
    assert(blocks.subrange(0, blocks.len() as int) =~= blocks);
    assert(data.subrange(0, data.len() as int) =~= data);
}

/// Cutting a buffer of `n` bytes with limit `m` yields `ceil(n / m)` blocks, each of
/// exactly `m` bytes but the last, which holds between 1 and `m` bytes.
pub proof fn lemma_cut_block_sizes(data: Seq<u8>, m: nat, blocks: Seq<Seq<u8>>)
    requires
        m > 0,
        is_cut_of(blocks, data, m),
    ensures
        blocks.len() == ceil_div(data.len(), m),
        forall|i: int| 0 <= i < blocks.len() - 1 ==> (#[trigger] blocks[i]).len() == m,
        blocks.len() > 0 ==> 0 < blocks.last().len() <= m,
{
    let n = blocks.len();
    lemma_ceil_div_bounds(data.len(), m);
    assert forall|i: int| 0 <= i < n - 1 implies (#[trigger] blocks[i]).len() == m by {
        assert((i + 1) * m <= (n - 1) * m) by (nonlinear_arith)
            requires
                i + 1 <= n - 1,
                m > 0,
        ;
        assert((i + 1) * m == i * m + m) by (nonlinear_arith);
        assert(0 <= i * m) by (nonlinear_arith)
            requires
                i >= 0,
        ;
    }
    if n > 0 {
        assert(n * m == (n - 1) * m + m) by (nonlinear_arith);
        assert(0 <= (n - 1) * m) by (nonlinear_arith)
            requires
                n >= 1,
        ;
        assert(blocks.last() == blocks[n - 1]);
    }
}

} // verus!
