use vstd::prelude::*;
use vstd::string::*;

verus! {

/// The decimal digit for `d < 10`.
pub open spec fn digit_char(d: int) -> char {
    if d == 0 {
        '0'
    } else if d == 1 {
        '1'
    } else if d == 2 {
        '2'
    } else if d == 3 {
        '3'
    } else if d == 4 {
        '4'
    } else if d == 5 {
        '5'
    } else if d == 6 {
        '6'
    } else if d == 7 {
        '7'
    } else if d == 8 {
        '8'
    } else {
        '9'
    }
}

/// The decimal form of a natural number, without leading zeros.
pub open spec fn decimal_nat(n: nat) -> Seq<char>
    decreases n,
{
    if n < 10 {
        seq![digit_char(n as int)]
    } else {
        decimal_nat(n / 10).push(digit_char((n % 10) as int))
    }
}

/// The decimal form of an integer, with a leading `-` when negative.
pub open spec fn decimal(n: int) -> Seq<char> {
    if n < 0 {
        seq!['-'] + decimal_nat((-n) as nat)
    } else {
        decimal_nat(n as nat)
    }
}

fn digit_str(d: u64) -> (r: &'static str)
    requires
        d < 10,
    ensures
        r@ == seq![digit_char(d as int)],
{
    proof {
        reveal_strlit("0");
        reveal_strlit("1");
        reveal_strlit("2");
        reveal_strlit("3");
        reveal_strlit("4");
        reveal_strlit("5");
        reveal_strlit("6");
        reveal_strlit("7");
        reveal_strlit("8");
        reveal_strlit("9");
    }
    match d {
        0 => "0",
        1 => "1",
        2 => "2",
        3 => "3",
        4 => "4",
        5 => "5",
        6 => "6",
        7 => "7",
        8 => "8",
        _ => "9",
    }
}

fn append_decimal(s: &mut String, v: u64)
    ensures
        final(s)@ == old(s)@ + decimal_nat(v as nat),
    decreases v,
{
    if v >= 10 {
        append_decimal(s, v / 10);
    }
    s.append(digit_str(v % 10));
    proof {
        if v >= 10 {
            assert(old(s)@ + decimal_nat(v as nat) =~= old(s)@ + decimal_nat((v / 10) as nat) + seq![
                digit_char((v % 10) as int),
            ]);
        } else {
            assert(old(s)@ + decimal_nat(v as nat) =~= old(s)@ + seq![digit_char((v % 10) as int)]);
        }
    }
}

/// The decimal text of `n`.
pub fn i64_to_string(n: i64) -> (r: String)
    ensures
        r@ == decimal(n as int),
{
    let mut s = String::new();
    if n < 0 {
        s.append("-");
        let magnitude: u64 = (-(n as i128)) as u64;
        append_decimal(&mut s, magnitude);
        proof {
            reveal_strlit("-");
            assert(s@ =~= decimal(n as int));
        }
    } else {
        append_decimal(&mut s, n as u64);
        proof {
            assert(s@ =~= decimal(n as int));
        }
    }
    s
}

/// The decimal text of `n`.
pub fn usize_to_string(n: usize) -> (r: String)
    ensures
        r@ == decimal(n as int),
{
    let mut s = String::new();
    append_decimal(&mut s, n as u64);
    assert(s@ =~= decimal(n as int));
    s
}

/// Envelope of a storage item in requests and responses.
pub struct StorageBody<T> {
    pub storage: T,
}

/// What a client asks for when it creates a file or directory in one request.
pub struct UploadFileReq {
    pub filename: String,
    pub is_dir: bool,
    pub parent_dir_id: i64,
}

/// A rename request.
pub struct UpdateFileReq {
    pub filename: String,
}

/// Which directory to list; the workspace root when absent.
pub struct ListStorageReq {
    pub parent_dir_id: Option<i64>,
}

/// Announces the number of chunks when an upload session is finished.
pub struct UploadFinishReq {
    pub total_chunk_num: usize,
}

/// What an upload session targets. User and workspace ids are UUIDs held as `u128`.
pub struct CreateSessionReq {
    pub filename: String,
    pub ws_id: u128,
    pub parent_dir_id: i64,
}

/// The session state kept while chunks arrive: its owner and target location.
pub struct SessionInfo {
    pub user_id: u128,
    pub ws_id: u128,
    pub filename: String,
    pub parent_dir_id: i64,
}

/// The receipt of one stored chunk.
pub struct BlockInfo {
    pub block_name: String,
    pub block_index: usize,
    pub block_size: usize,
    pub block_hash: String,
}

/// The descriptor of a file or directory handed to clients; numbers are in decimal text.
pub struct Storage {
    pub id: String,
    pub is_dir: bool,
    pub filename: String,
    pub parent_dir_id: String,
    pub size: String,
}

impl Storage {
    pub fn new(id: i64, filename: String, is_dir: bool, parent_dir_id: i64, size: usize) -> (r: Storage)
        ensures
            r.id@ == decimal(id as int),
            r.filename == filename,
            r.is_dir == is_dir,
            r.parent_dir_id@ == decimal(parent_dir_id as int),
            r.size@ == decimal(size as int),
    {
        Storage {
            id: i64_to_string(id),
            is_dir,
            filename,
            parent_dir_id: i64_to_string(parent_dir_id),
            size: usize_to_string(size),
        }
    }
}

} // verus!
