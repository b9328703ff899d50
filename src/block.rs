use vstd::prelude::*;
use vstd::string::*;
use crate::error::Error;

verus! {

/// A named, immutable run of bytes. The name does not depend on the content.
pub struct Block {
    pub name: String,
    pub data: Vec<u8>,
}

/// Where a block lives below a store's root: `<first char>/<second char>/<name>`,
/// which bounds the fan-out of each directory.
pub open spec fn block_path(name: Seq<char>) -> Seq<char> {
    seq![name[0], '/', name[1], '/'] + name
}

/// `rel` placed below the directory `dir`, with one separator between them.
pub open spec fn join_path(dir: Seq<char>, rel: Seq<char>) -> Seq<char> {
    if dir.len() == 0 {
        rel
    } else if dir.last() == '/' {
        dir + rel
    } else {
        dir + seq!['/'] + rel
    }
}

/// The hyphenated text of the version-7 UUID built from a Unix time in milliseconds
/// and ten counter/random bytes.
pub uninterp spec fn uuid_v7_text(millis: u64, counter_random_bytes: Seq<u8>) -> Seq<char>;

/// Relies on `uuid::Builder::from_unix_timestamp_millis`, which only places the bits of
/// its arguments, and on uuid's `Display`, which writes the hyphenated form: 36 characters.
#[verifier::external_body]
fn uuid_v7_string(millis: u64, counter_random_bytes: &[u8; 10]) -> (r: String)
    ensures
        r@ == uuid_v7_text(millis, counter_random_bytes@),
        r@.len() == 36,
{
    uuid::Builder::from_unix_timestamp_millis(millis, counter_random_bytes).into_uuid().to_string()
}

/// Relies on `rand::rngs::OsRng::try_fill_bytes` (the operating system's random source),
/// which reports a failure instead of panicking.
#[verifier::external_body]
fn random_bytes() -> (r: Option<[u8; 10]>) {
    let mut bytes = [0u8; 10];
    match <rand::rngs::OsRng as rand::RngCore>::try_fill_bytes(&mut rand::rngs::OsRng, &mut bytes) {
        Ok(()) => Some(bytes),
        Err(_) => None,
    }
}

/// A fresh time-ordered name: a version-7 UUID from the current time and random bytes,
/// or `None` when the clock reads before 1970 or the random source fails.
pub(crate) fn new_uuid_string() -> (r: Option<String>)
    ensures
        r matches Some(s) ==> s@.len() == 36,
{
    let millis = match crate::snowflake::get_timestamp() {
        Some(t) => t,
        None => {
            return None;
        },
    };
    if millis < 0 {
        return None;
    }
    match random_bytes() {
        Some(bytes) => Some(uuid_v7_string(millis as u64, &bytes)),
        None => None,
    }
}

/// The relative path of the block named `block_name`, or `None` when the name is
/// shorter than two characters.
pub fn block_path_by_filename(block_name: &str) -> (r: Option<String>)
    ensures
        r is Some <==> block_name@.len() >= 2,
        r matches Some(p) ==> p@ == block_path(block_name@),
{
    if block_name.unicode_len() < 2 {
        return None;
    }
    let first = block_name.substring_char(0, 1);
    let second = block_name.substring_char(1, 2);
    let mut path = String::from_str(first);
    path.append("/");
    path.append(second);
    path.append("/");
    path.append(block_name);
    proof {
        reveal_strlit("/");
        assert(path@ =~= block_path(block_name@));
    }
    Some(path)
}

impl Block {
    pub fn new(block_name: String, data: Vec<u8>) -> (r: Block)
        ensures
            r.name == block_name,
            r.data == data,
    {
        Block { name: block_name, data }
    }

    /// The block's path relative to a store's root.
    pub fn path(&self) -> (r: String)
        requires
            self.name@.len() >= 2,
        ensures
            r@ == block_path(self.name@),
    {
        match block_path_by_filename(self.name.as_str()) {
            Some(p) => p,
            None => String::new(),
        }
    }
}

/// The capability set of a block backend: write a batch of named blocks, and read
/// a batch back by name.
pub trait BlockHandler {
    /// Persists every block of the batch. On an error some of them may have been
    /// written already; nothing is rolled back.
    fn write_blocks(&mut self, blocks: Vec<Block>) -> (r: Result<(), Error>);

    /// The blocks with the given names, in the order asked for.
    fn get_blocks(&self, blocks_name: &Vec<String>) -> (r: Result<Vec<Block>, Error>)
        ensures
            r matches Ok(bs) ==> bs@.len() == blocks_name@.len() && forall|i: int|
                0 <= i < bs@.len() ==> #[trigger] bs@[i].name@ == blocks_name@[i]@,
    ;
}

/// A block backend on the local filesystem, rooted at `target_dir`. The file I/O is
/// done by the embedding program; this type decides where each block goes.
pub struct FsHandler {
    pub target_dir: String,
}

impl FsHandler {
    pub fn new(target_dir: &str) -> (r: FsHandler)
        ensures
            r.target_dir@ == target_dir@,
    {
        FsHandler { target_dir: String::from_str(target_dir) }
    }

    /// The file that holds the block named `block_name`, or `None` when the name is
    /// shorter than two characters.
    pub fn block_file_path(&self, block_name: &str) -> (r: Option<String>)
        ensures
            r is Some <==> block_name@.len() >= 2,
            r matches Some(p) ==> p@ == join_path(self.target_dir@, block_path(block_name@)),
    {
        match block_path_by_filename(block_name) {
            None => None,
            Some(rel) => {
                let dir = self.target_dir.as_str();
                let n = dir.unicode_len();
                if n == 0 {
                    return Some(rel);
                }
                let mut p = String::from_str(dir);
                if dir.get_char(n - 1) != '/' {
                    p.append("/");
                }
                p.append(rel.as_str());
                proof {
                    reveal_strlit("/");
                    assert(p@ =~= join_path(self.target_dir@, block_path(block_name@)));
                }
                Some(p)
            },
        }
    }
}

/// The content of the last block named `name` among `blocks`.
pub open spec fn lookup_block(blocks: Seq<Block>, name: Seq<char>) -> Option<Seq<u8>>
    decreases blocks.len(),
{
    if blocks.len() == 0 {
        None
    } else if blocks.last().name@ == name {
        Some(blocks.last().data@)
    } else {
        lookup_block(blocks.drop_last(), name)
    }
}

/// No two blocks of the batch share a name.
pub open spec fn names_distinct(blocks: Seq<Block>) -> bool {
    forall|i: int, j: int|
        0 <= i < j < blocks.len() ==> (#[trigger] blocks[i]).name@ != (#[trigger] blocks[j]).name@
}

/// A block backend held in memory.
pub struct MemoryBlockStore {
    blocks: Vec<Block>,
}

impl View for MemoryBlockStore {
    type V = Seq<Block>;

    /// The blocks in the order they were written.
    closed spec fn view(&self) -> Seq<Block> {
        self.blocks@
    }
}

impl MemoryBlockStore {
    pub fn new() -> (r: MemoryBlockStore)
        ensures
            r@ == Seq::<Block>::empty(),
    {
        MemoryBlockStore { blocks: Vec::new() }
    }

    /// Number of blocks written so far.
    pub fn len(&self) -> (r: usize)
        ensures
            r == self@.len(),
    {
        self.blocks.len()
    }

    /// The position of the last block named `name`.
    fn find_last(&self, name: &String) -> (r: Option<usize>)
        ensures
            r matches Some(j) ==> j < self.blocks@.len() && self.blocks@[j as int].name@ == name@
                && lookup_block(self.blocks@, name@) == Some(self.blocks@[j as int].data@),
            r is None ==> lookup_block(self.blocks@, name@) is None,
    {
        let mut j: usize = self.blocks.len();
        assert(self.blocks@.subrange(0, j as int) =~= self.blocks@);
        while j > 0
            invariant
                j <= self.blocks@.len(),
                lookup_block(self.blocks@, name@) == lookup_block(
                    self.blocks@.subrange(0, j as int),
                    name@,
                ),
            decreases j,
        {
            assert(self.blocks@.subrange(0, j as int).drop_last() =~= self.blocks@.subrange(
                0,
                j - 1,
            ));
            if self.blocks[j - 1].name == *name {
                return Some(j - 1);
            }
            j = j - 1;
        }
        assert(self.blocks@.subrange(0, 0) =~= Seq::<Block>::empty());
        None
    }

    /// The content of the block named `name`.
    pub fn get(&self, name: &String) -> (r: Option<Vec<u8>>)
        ensures
            r matches Some(d) ==> lookup_block(self@, name@) == Some(d@),
            r is None ==> lookup_block(self@, name@) is None,
    {
        match self.find_last(name) {
            Some(j) => Some(vstd::slice::slice_to_vec(self.blocks[j].data.as_slice())),
            None => None,
        }
    }
}

impl BlockHandler for MemoryBlockStore {
    fn write_blocks(&mut self, blocks: Vec<Block>) -> (r: Result<(), Error>)
        ensures
            r is Ok,
            final(self)@ == old(self)@ + blocks@,
    {
        let mut blocks = blocks;
        self.blocks.append(&mut blocks);
        Ok(())
    }

    /// Fails with `NotFound` when some name was never written.
    fn get_blocks(&self, blocks_name: &Vec<String>) -> (r: Result<Vec<Block>, Error>)
        ensures
            r is Ok <==> forall|i: int|
                0 <= i < blocks_name@.len() ==> #[trigger] lookup_block(self@, blocks_name@[i]@) is Some,
            r is Err ==> r == Err::<Vec<Block>, Error>(Error::NotFound),
            r matches Ok(bs) ==> forall|i: int|
                0 <= i < bs@.len() ==> lookup_block(self@, blocks_name@[i]@) == Some(
                    #[trigger] bs@[i].data@,
                ),
    {
        let mut out: Vec<Block> = Vec::new();
        let mut i: usize = 0;
        while i < blocks_name.len()
            invariant
                i <= blocks_name@.len(),
                out@.len() == i,
                forall|k: int|
                    0 <= k < i ==> (#[trigger] out@[k]).name@ == blocks_name@[k]@ && lookup_block(
                        self@,
                        blocks_name@[k]@,
                    ) == Some(out@[k].data@),
            decreases blocks_name@.len() - i,
        {
            match self.find_last(&blocks_name[i]) {
                Some(j) => {
                    let data = vstd::slice::slice_to_vec(self.blocks[j].data.as_slice());
                    out.push(Block { name: blocks_name[i].clone(), data });
                },
                None => {
                    assert(lookup_block(self@, blocks_name@[i as int]@) is None);
                    return Err(Error::NotFound);
                },
            }
            i = i + 1;
        }
        assert forall|k: int| 0 <= k < blocks_name@.len() implies #[trigger] lookup_block(
            self@,
            blocks_name@[k]@,
        ) is Some by {
            assert(out@[k].name@ == blocks_name@[k]@);
        }
        Ok(out)
    }
}

} // verus!
