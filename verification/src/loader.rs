//! Weight loading from HuggingFace safetensors checkpoints.
//!
//! # Fused gate+up projection
//!
//! [`crate::layers::FeedForward`] fuses gate and up projections into a single weight
//! matrix of shape `[d_model, 2*d_ff]`, named `mlp.gate_up_proj.weight` in the graph.
//! HuggingFace Llama checkpoints store them separately as:
//!   - `model.layers.N.mlp.gate_proj.weight`  — shape `[d_ff, d_model]`
//!   - `model.layers.N.mlp.up_proj.weight`    — shape `[d_ff, d_model]`
//!
//! The loader concatenates these along axis 0 → `[2*d_ff, d_model]`.

use vstd::hash_map::StringHashMap;
use vstd::prelude::*;
use vstd::slice::slice_subrange;

use crate::ieee::{bf16_to_f32, f16_to_f32, f16_widened, F32Bits};

verus! {

/// Why a checkpoint could not be loaded.
#[derive(Debug)]
pub enum LoadError {
    /// The directory holds no `.safetensors` file.
    NoFiles,
    /// A file is not a safetensors file; the reason, in words.
    Malformed(String),
    /// The end that a file's header declares does not fit a word.
    OffsetOverflow,
    /// A tensor has an element type that is not decoded; its name.
    UnsupportedDtype(String),
    /// A half of a fused weight is missing; its key.
    MissingPart(String),
    /// A weight is missing; its key.
    MissingWeight(String),
}

impl LoadError {
    /// The error in words.
    pub fn message(&self) -> (s: String)
        ensures
            s@ == (match *self {
                LoadError::NoFiles => "no .safetensors files found"@,
                LoadError::Malformed(why) => why@,
                LoadError::OffsetOverflow => "tensor offset overflows"@,
                LoadError::UnsupportedDtype(name) => "unsupported tensor dtype: "@ + name@,
                LoadError::MissingPart(key) => "missing: "@ + key@,
                LoadError::MissingWeight(key) => "missing weight: "@ + key@,
            }),
    {
        match self {
            LoadError::NoFiles => "no .safetensors files found".to_string(),
            LoadError::Malformed(why) => why.clone(),
            LoadError::OffsetOverflow => "tensor offset overflows".to_string(),
            LoadError::UnsupportedDtype(name) => "unsupported tensor dtype: ".to_string().concat(
                name.as_str(),
            ),
            LoadError::MissingPart(key) => "missing: ".to_string().concat(key.as_str()),
            LoadError::MissingWeight(key) => "missing weight: ".to_string().concat(key.as_str()),
        }
    }
}

// ---------------------------------------------------------------------------
// Element types
// ---------------------------------------------------------------------------
/// The 16-bit little-endian number at `i`.
pub open spec fn le16(bytes: Seq<u8>, i: int) -> u16 {
    (bytes[i] + 0x100 * bytes[i + 1]) as u16
}

/// The 32-bit little-endian number at `i`.
pub open spec fn le32(bytes: Seq<u8>, i: int) -> u32 {
    (bytes[i] + 0x100 * bytes[i + 1] + 0x1_0000 * bytes[i + 2] + 0x100_0000 * bytes[i + 3]) as u32
}

/// Tensors of the element type named `dtype` can be decoded.
pub open spec fn is_supported(dtype: Seq<char>) -> bool {
    dtype == "F32"@ || dtype == "BF16"@ || dtype == "F16"@
}

/// The single-precision values of tensor data of the element type named `dtype`. Bytes
/// short of a whole element at the end count for nothing.
pub open spec fn f32_data(dtype: Seq<char>, bytes: Seq<u8>) -> Seq<F32Bits> {
    if dtype == "F32"@ {
        Seq::new(bytes.len() / 4, |i: int| le32(bytes, 4 * i))
    } else if dtype == "BF16"@ {
        Seq::new(bytes.len() / 2, |i: int| (le16(bytes, 2 * i) * 0x1_0000) as u32)
    } else {
        Seq::new(bytes.len() / 2, |i: int| f16_widened(le16(bytes, 2 * i)) as u32)
    }
}

fn read_le16(bytes: &[u8], i: usize) -> (r: u16)
    requires
        i + 1 < bytes@.len(),
    ensures
        r == le16(bytes@, i as int),
{
    bytes[i] as u16 + 0x100 * bytes[i + 1] as u16
}

fn read_le32(bytes: &[u8], i: usize) -> (r: u32)
    requires
        i + 3 < bytes@.len(),
    ensures
        r == le32(bytes@, i as int),
{
    bytes[i] as u32 + 0x100 * bytes[i + 1] as u32 + 0x1_0000 * bytes[i + 2] as u32 + 0x100_0000
        * bytes[i + 3] as u32
}

/// Decodes tensor data to single precision.
pub fn tensor_to_f32(dtype: &String, bytes: &[u8]) -> (r: Result<Vec<F32Bits>, LoadError>)
    ensures
        match r {
            Ok(out) => is_supported(dtype@) && out@ == f32_data(dtype@, bytes@),
            Err(LoadError::UnsupportedDtype(name)) => !is_supported(dtype@) && name@ == dtype@,
            Err(_) => false,
        },
{
    proof {
        reveal_strlit("F32");
        reveal_strlit("BF16");
        reveal_strlit("F16");
        assert("F32"@.len() != "BF16"@.len());
        assert("F16"@.len() != "BF16"@.len());
        assert("F32"@[1] != "F16"@[1]);
    }
    let size: usize = bytes.len();
    let mut out: Vec<F32Bits> = Vec::new();
    let mut i: usize = 0;
    if *dtype == "F32".to_string() {
        let n: usize = size / 4;
        while i < n
            invariant
                i <= n,
                size == bytes@.len(),
                n == size / 4,
                out@ == Seq::new(i as nat, |i: int| le32(bytes@, 4 * i)),
            decreases n - i,
        {
            out.push(read_le32(bytes, 4 * i));
            i += 1;
            assert(out@ =~= Seq::new(i as nat, |i: int| le32(bytes@, 4 * i)));
        }
        Ok(out)
    } else if *dtype == "BF16".to_string() {
        let n: usize = size / 2;
        while i < n
            invariant
                i <= n,
                size == bytes@.len(),
                n == size / 2,
                out@ == Seq::new(i as nat, |i: int| (le16(bytes@, 2 * i) * 0x1_0000) as u32),
            decreases n - i,
        {
            // BF16 → F32: zero-extend the 16-bit bfloat16 to 32-bit float
            out.push(bf16_to_f32(read_le16(bytes, 2 * i)));
            i += 1;
            assert(out@ =~= Seq::new(
                i as nat,
                |i: int| (le16(bytes@, 2 * i) * 0x1_0000) as u32,
            ));
        }
        Ok(out)
    } else if *dtype == "F16".to_string() {
        let n: usize = size / 2;
        while i < n
            invariant
                i <= n,
                size == bytes@.len(),
                n == size / 2,
                out@ == Seq::new(i as nat, |i: int| f16_widened(le16(bytes@, 2 * i)) as u32),
            decreases n - i,
        {
            out.push(f16_to_f32(read_le16(bytes, 2 * i)));
            i += 1;
            assert(out@ =~= Seq::new(
                i as nat,
                |i: int| f16_widened(le16(bytes@, 2 * i)) as u32,
            ));
        }
        Ok(out)
    } else {
        Err(LoadError::UnsupportedDtype(dtype.clone()))
    }
}

// ---------------------------------------------------------------------------
// Files
// ---------------------------------------------------------------------------
/// A tensor of a file, as stored.
#[derive(Debug)]
pub struct RawTensor {
    pub name: String,
    /// The name of the element type.
    pub dtype: String,
    pub data: Vec<u8>,
}

/// The error type of the safetensors reader.
#[verifier::external_type_specification]
#[verifier::external_body]
pub struct ExSafeTensorError(safetensors::SafeTensorError);

/// What `safetensors` reads from the bytes of a file: element type and data by name,
/// or nothing where it finds no valid file.
///
/// The reader multiplies the dimensions of a tensor in machine words and refuses the
/// file where that overflows, so an empty tensor of huge dimensions may be read on a
/// machine with wider words only.
pub uninterp spec fn checkpoint_tensors(bytes: Seq<u8>) -> Option<
    Map<Seq<char>, (Seq<char>, Seq<u8>)>,
>;

/// The tensors of `list` by name.
pub open spec fn by_name(list: Seq<RawTensor>) -> Map<Seq<char>, (Seq<char>, Seq<u8>)>
    decreases list.len(),
{
    if list.len() == 0 {
        Map::empty()
    } else {
        let t = list.last();
        by_name(list.drop_last()).insert(t.name@, (t.dtype@, t.data@))
    }
}

/// The names of `list` are distinct.
pub open spec fn distinct_names(list: Seq<RawTensor>) -> bool {
    forall|i: int, j: int|
        0 <= i < j < list.len() ==> (#[trigger] list[i]).name@ != (#[trigger] list[j]).name@
}

/// Reads a file: `safetensors::SafeTensors::deserialize`, and for each of its
/// `tensors()` the name, the element type by its `Debug` name, and the data.
///
/// The contract names the result: the tensors by name are a function of the bytes, and
/// no name comes twice. The order of the list is left open, as the reader walks a hash
/// map. A file that is read has the length that its header declares. The reader adds
/// the declared length of the data to the header's end without checking for overflow,
/// which `requires` rules out.
#[verifier::external_body]
fn read_tensors(bytes: &[u8]) -> (r: Result<Vec<RawTensor>, safetensors::SafeTensorError>)
    requires
        header_fits(bytes@),
    ensures
        checkpoint_tensors(bytes@) == (match r {
            Ok(list) => Some(by_name(list@)),
            Err(_) => None,
        }),
        r matches Ok(list) ==> distinct_names(list@) && ends_as_declared(bytes@),
{
    let file = safetensors::SafeTensors::deserialize(bytes)?;
    let tensors = file.tensors().into_iter().map(
        |(name, t)| RawTensor {
            name,
            dtype: format!("{:?}", t.dtype()),
            data: t.data().to_vec(),
        },
    );
    Ok(tensors.collect())
}

/// The words of a reader's error: `Display` of `safetensors::SafeTensorError`. Nothing
/// is claimed of them.
#[verifier::external_body]
fn error_words(error: &safetensors::SafeTensorError) -> String {
    format!("{error}")
}

/// The length that a file gives for its header: its first eight bytes, little-endian.
pub open spec fn header_len(bytes: Seq<u8>) -> int {
    bytes[0] + 0x100 * bytes[1] + 0x1_0000 * bytes[2] + 0x100_0000 * bytes[3] + 0x1_0000_0000
        * bytes[4] + 0x100_0000_0000 * bytes[5] + 0x1_0000_0000_0000 * bytes[6]
        + 0x100_0000_0000_0000 * bytes[7]
}

/// The longest header that the reader takes, in bytes.
pub const MAX_HEADER_LEN: u64 = 100_000_000;

/// The number of bytes of tensor data that a header declares, or nothing where it is no
/// valid header: what `safetensors` finds in it, before it looks at the data.
///
/// As with [`checkpoint_tensors`], a header that declares an empty tensor of huge
/// dimensions may be valid on a machine with wider words only.
pub uninterp spec fn declared_len(header: Seq<u8>) -> Option<nat>;

/// Reads a header: `serde_json::from_slice` to a `safetensors::tensor::Metadata`, and
/// its `data_len`.
///
/// The contract names the result, a function of the header's bytes.
#[verifier::external_body]
fn read_declared_len(header: &[u8]) -> (r: Option<usize>)
    ensures
        declared_len(header@) == (match r {
            Some(n) => Some(n as nat),
            None => None,
        }),
{
    let metadata: safetensors::tensor::Metadata = serde_json::from_slice(header).ok()?;
    Some(metadata.data_len())
}

/// The reader comes to the header's declaration: the header is short enough and lies
/// within the file.
pub open spec fn header_is_read(bytes: Seq<u8>) -> bool {
    bytes.len() >= 8 && header_len(bytes) <= MAX_HEADER_LEN && header_len(bytes) <= bytes.len() - 8
}

/// The end that a file's header declares, which the reader computes, fits a word.
pub open spec fn header_fits(bytes: Seq<u8>) -> bool {
    let n = header_len(bytes);
    header_is_read(bytes) ==> (declared_len(bytes.subrange(8, 8 + n)) matches Some(data) ==> 8 + n
        + data <= usize::MAX)
}

/// The header declares the length that the file has.
pub open spec fn ends_as_declared(bytes: Seq<u8>) -> bool {
    let n = header_len(bytes);
    header_is_read(bytes) && declared_len(bytes.subrange(8, 8 + n)) == Some(
        (bytes.len() - 8 - n) as nat,
    )
}

/// A file in memory whose header declares its length, as the reader asks of every file,
/// is never beyond reach.
pub proof fn complete_files_fit(bytes: Seq<u8>)
    requires
        bytes.len() <= usize::MAX,
        ends_as_declared(bytes),
    ensures
        header_fits(bytes),
{
}

/// Whether the end that a file's header declares fits a word, as that of a file in
/// memory does.
pub fn check_header(bytes: &[u8]) -> (ok: bool)
    ensures
        ok == header_fits(bytes@),
{
    let size: usize = bytes.len();
    if size < 8 {
        return true;
    }
    let low: u64 = read_le32(bytes, 0) as u64;
    let high: u64 = read_le32(bytes, 4) as u64;
    let n: u64 = low + 0x1_0000_0000 * high;
    if n > MAX_HEADER_LEN || n > (size - 8) as u64 {
        return true;
    }
    let end: usize = 8 + n as usize;
    match read_declared_len(slice_subrange(bytes, 8, end)) {
        Some(data) => data <= usize::MAX - end,
        None => true,
    }
}

/// Single-precision tensor data by name.
pub struct Tensors {
    map: StringHashMap<Vec<F32Bits>>,
}

impl View for Tensors {
    type V = Map<Seq<char>, Seq<F32Bits>>;

    closed spec fn view(&self) -> Map<Seq<char>, Seq<F32Bits>> {
        self.map@.map_values(|v: Vec<F32Bits>| v@)
    }
}

impl Tensors {
    /// No tensors.
    pub fn new() -> (r: Self)
        ensures
            r@ == Map::<Seq<char>, Seq<F32Bits>>::empty(),
    {
        let r = Tensors { map: StringHashMap::new() };
        assert(r@ =~= Map::<Seq<char>, Seq<F32Bits>>::empty());
        r
    }

    /// Sets the data of `name`, in place of what it had.
    pub fn insert(&mut self, name: String, data: Vec<F32Bits>)
        ensures
            final(self)@ == old(self)@.insert(name@, data@),
    {
        self.map.insert(name, data);
        assert(self@ =~= old(self)@.insert(name@, data@));
    }

    /// The data of `name`.
    pub fn get(&self, name: &str) -> (r: Option<&Vec<F32Bits>>)
        ensures
            match r {
                Some(data) => self@.dom().contains(name@) && data@ == self@[name@],
                None => !self@.dom().contains(name@),
            },
    {
        self.map.get(name)
    }
}

/// Every tensor of a file can be decoded.
pub open spec fn all_supported(tensors: Map<Seq<char>, (Seq<char>, Seq<u8>)>) -> bool {
    forall|name: Seq<char>|
        #![trigger tensors[name]]
        tensors.dom().contains(name) ==> is_supported(tensors[name].0)
}

/// A tensor of a file has the element type `dtype`.
pub open spec fn has_dtype(
    tensors: Map<Seq<char>, (Seq<char>, Seq<u8>)>,
    dtype: Seq<char>,
) -> bool {
    exists|name: Seq<char>|
        #![trigger tensors[name]]
        tensors.dom().contains(name) && tensors[name].0 == dtype
}

/// The tensors of a file, decoded.
pub open spec fn decoded(tensors: Map<Seq<char>, (Seq<char>, Seq<u8>)>) -> Map<
    Seq<char>,
    Seq<F32Bits>,
> {
    tensors.map_values(|t: (Seq<char>, Seq<u8>)| f32_data(t.0, t.1))
}

/// `bytes` are those of a valid file whose tensors can all be decoded.
pub open spec fn is_loadable(bytes: Seq<u8>) -> bool {
    header_fits(bytes) && (checkpoint_tensors(bytes) matches Some(tensors) && all_supported(
        tensors,
    ))
}

/// `bytes` are those of a valid file that holds a tensor of the element type `dtype`.
pub open spec fn holds_dtype(bytes: Seq<u8>, dtype: Seq<char>) -> bool {
    checkpoint_tensors(bytes) matches Some(tensors) && has_dtype(tensors, dtype)
}

/// The tensors of the first `n` of `files`. Where two files hold a name, the later one
/// counts.
pub open spec fn merged(files: Seq<Vec<u8>>, n: nat) -> Map<Seq<char>, Seq<F32Bits>>
    decreases n,
{
    if n == 0 {
        Map::empty()
    } else {
        let last = checkpoint_tensors(files[n - 1]@)->Some_0;
        merged(files, (n - 1) as nat).union_prefer_right(decoded(last))
    }
}

/// A tensor of the list is a tensor of the map.
proof fn lemma_by_name(list: Seq<RawTensor>, i: int)
    requires
        distinct_names(list),
        0 <= i < list.len(),
    ensures
        by_name(list).dom().contains(list[i].name@),
        by_name(list)[list[i].name@] == (list[i].dtype@, list[i].data@),
    decreases list.len(),
{
    let rest = list.drop_last();
    if i < list.len() - 1 {
        assert forall|a: int, b: int| 0 <= a < b < rest.len() implies (#[trigger] rest[a]).name@
            != (#[trigger] rest[b]).name@ by {
            assert(list[a].name@ != list[b].name@);
        }
        lemma_by_name(rest, i);
        assert(list[i].name@ != list[list.len() - 1].name@);
    }
}

/// A tensor of the map is a tensor of the list.
proof fn lemma_named(list: Seq<RawTensor>, name: Seq<char>) -> (i: int)
    requires
        by_name(list).dom().contains(name),
    ensures
        0 <= i < list.len(),
        list[i].name@ == name,
        by_name(list)[name] == (list[i].dtype@, list[i].data@),
    decreases list.len(),
{
    let last = list.len() - 1;
    if list[last].name@ == name {
        last
    } else {
        lemma_named(list.drop_last(), name)
    }
}

/// Decodes the tensors of a file into `out`, where a tensor replaces one of its name.
pub fn decode_tensors(list: Vec<RawTensor>, out: &mut Tensors) -> (r: Result<(), LoadError>)
    requires
        distinct_names(list@),
    ensures
        match r {
            Ok(_) => all_supported(by_name(list@)) && final(out)@ == old(out)@.union_prefer_right(
                decoded(by_name(list@)),
            ),
            Err(LoadError::UnsupportedDtype(dtype)) => !is_supported(dtype@) && has_dtype(
                by_name(list@),
                dtype@,
            ),
            Err(_) => false,
        },
{
    let ghost before = out@;
    let mut i: usize = 0;
    assert(list@.take(0) =~= Seq::empty());
    assert(out@ =~= before.union_prefer_right(decoded(by_name(list@.take(0)))));
    while i < list.len()
        invariant
            i <= list@.len(),
            distinct_names(list@),
            forall|k: int| 0 <= k < i ==> is_supported((#[trigger] list@[k]).dtype@),
            out@ == before.union_prefer_right(decoded(by_name(list@.take(i as int)))),
        decreases list@.len() - i,
    {
        let t: &RawTensor = &list[i];
        match tensor_to_f32(&t.dtype, t.data.as_slice()) {
            Ok(data) => {
                out.insert(t.name.clone(), data);
                assert(list@.take(i + 1).drop_last() =~= list@.take(i as int));
                assert(out@ =~= before.union_prefer_right(decoded(by_name(list@.take(i + 1)))));
            },
            Err(e) => {
                proof {
                    lemma_by_name(list@, i as int);
                    assert(by_name(list@)[list@[i as int].name@].0 == list@[i as int].dtype@);
                }
                return Err(e);
            },
        }
        i += 1;
    }
    proof {
        assert(list@.take(i as int) =~= list@);
        let tensors = by_name(list@);
        assert forall|name: Seq<char>|
            #![trigger tensors[name]]
            tensors.dom().contains(name) implies is_supported(tensors[name].0) by {
            let k = lemma_named(list@, name);
            assert(is_supported(list@[k].dtype@));
        }
    }
    Ok(())
}

/// Decodes every tensor of a file into `out`, where a tensor replaces one of its name.
///
/// Which of several tensors of unsupported element types the error names is left open.
pub fn load_file(bytes: &[u8], out: &mut Tensors) -> (r: Result<(), LoadError>)
    requires
        header_fits(bytes@),
    ensures
        match r {
            Ok(_) => {
                &&& is_loadable(bytes@)
                &&& ends_as_declared(bytes@)
                &&& final(out)@ == old(out)@.union_prefer_right(
                    decoded(checkpoint_tensors(bytes@)->Some_0),
                )
            },
            Err(LoadError::Malformed(_)) => checkpoint_tensors(bytes@) is None,
            Err(LoadError::UnsupportedDtype(dtype)) => !is_supported(dtype@) && holds_dtype(
                bytes@,
                dtype@,
            ),
            Err(_) => false,
        },
{
    match read_tensors(bytes) {
        Ok(list) => decode_tensors(list, out),
        Err(e) => Err(LoadError::Malformed(error_words(&e))),
    }
}

/// The first `n` of `files` can be loaded.
pub open spec fn loadable_before(files: Seq<Vec<u8>>, n: int) -> bool {
    forall|k: int| 0 <= k < n ==> is_loadable((#[trigger] files[k])@)
}

/// Decodes every tensor of the files of a checkpoint, in order, to a key → data map.
///
/// The first file that declares an end beyond reach, is malformed or holds a tensor of an
/// unsupported element type decides the error; which of several such tensors it names is
/// left open.
pub fn load_all_tensors(files: &Vec<Vec<u8>>) -> (r: Result<Tensors, LoadError>)
    ensures
        match r {
            Ok(tensors) => {
                &&& files@.len() > 0
                &&& loadable_before(files@, files@.len() as int)
                &&& tensors@ == merged(files@, files@.len())
            },
            Err(LoadError::NoFiles) => files@.len() == 0,
            Err(LoadError::OffsetOverflow) => exists|i: int|
                {
                    &&& 0 <= i < files@.len()
                    &&& !header_fits((#[trigger] files@[i])@)
                    &&& loadable_before(files@, i)
                },
            Err(LoadError::Malformed(_)) => exists|i: int|
                {
                    &&& 0 <= i < files@.len()
                    &&& header_fits((#[trigger] files@[i])@)
                    &&& checkpoint_tensors(files@[i]@) is None
                    &&& loadable_before(files@, i)
                },
            Err(LoadError::UnsupportedDtype(dtype)) => !is_supported(dtype@) && exists|i: int|
                {
                    &&& 0 <= i < files@.len()
                    &&& header_fits((#[trigger] files@[i])@)
                    &&& holds_dtype(files@[i]@, dtype@)
                    &&& loadable_before(files@, i)
                },
            Err(_) => false,
        },
{
    if files.len() == 0 {
        return Err(LoadError::NoFiles);
    }
    let mut out = Tensors::new();
    let mut i: usize = 0;
    while i < files.len()
        invariant
            i <= files@.len(),
            loadable_before(files@, i as int),
            out@ == merged(files@, i as nat),
        decreases files@.len() - i,
    {
        if !check_header(files[i].as_slice()) {
            assert(!header_fits(files@[i as int]@));
            return Err(LoadError::OffsetOverflow);
        }
        assert(header_fits(files@[i as int]@));
        match load_file(files[i].as_slice(), &mut out) {
            Ok(_) => {},
            Err(e) => {
                return Err(e);
            },
        }
        i += 1;
    }
    Ok(out)
}

/// Decoding reads whole little-endian elements, in order, and leaves an incomplete one at
/// the end out: single precision as it is stored, brain floating point as the upper half
/// of a pattern, half precision widened.
pub proof fn elements_are_little_endian(bytes: Seq<u8>)
    ensures
        f32_data("F32"@, bytes).len() == bytes.len() / 4,
        f32_data("BF16"@, bytes).len() == bytes.len() / 2,
        f32_data("F16"@, bytes).len() == bytes.len() / 2,
        forall|i: int|
            0 <= i < bytes.len() / 4 ==> #[trigger] f32_data("F32"@, bytes)[i] == bytes[4 * i]
                + 0x100 * bytes[4 * i + 1] + 0x1_0000 * bytes[4 * i + 2] + 0x100_0000 * bytes[4 * i
                + 3],
        forall|i: int|
            0 <= i < bytes.len() / 2 ==> #[trigger] f32_data("BF16"@, bytes)[i] == 0x1_0000
                * bytes[2 * i] + 0x100_0000 * bytes[2 * i + 1],
        forall|i: int|
            0 <= i < bytes.len() / 2 ==> #[trigger] f32_data("F16"@, bytes)[i] == f16_widened(
                (bytes[2 * i] + 0x100 * bytes[2 * i + 1]) as u16,
            ) as u32,
        forall|dtype: Seq<char>| #[trigger]
            is_supported(dtype) <==> dtype == "F32"@ || dtype == "BF16"@ || dtype == "F16"@,
{
    reveal_strlit("F32");
    reveal_strlit("BF16");
    reveal_strlit("F16");
    assert("F32"@.len() != "BF16"@.len());
    assert("F16"@.len() != "BF16"@.len());
    assert("F32"@[1] != "F16"@[1]);
}

/// The tensors of a list by name: those of the list, with their element types and data,
/// and no others.
pub proof fn names_find_their_tensors(list: Seq<RawTensor>, i: int, name: Seq<char>)
    requires
        forall|a: int, b: int|
            0 <= a < b < list.len() ==> (#[trigger] list[a]).name@ != (#[trigger] list[b]).name@,
        0 <= i < list.len(),
    ensures
        by_name(list).dom().contains(list[i].name@),
        by_name(list)[list[i].name@] == (list[i].dtype@, list[i].data@),
        by_name(list).dom().contains(name) <==> exists|k: int|
            0 <= k < list.len() && (#[trigger] list[k]).name@ == name,
{
    lemma_by_name(list, i);
    if by_name(list).dom().contains(name) {
        let k = lemma_named(list, name);
        assert(list[k].name@ == name);
    }
    if exists|k: int| 0 <= k < list.len() && (#[trigger] list[k]).name@ == name {
        let k = choose|k: int| 0 <= k < list.len() && (#[trigger] list[k]).name@ == name;
        lemma_by_name(list, k);
    }
}

/// Where several files of a checkpoint hold a name, the last of them counts: its tensor,
/// decoded by its own element type. A name that no file holds is not there.
pub proof fn the_last_file_counts(files: Seq<Vec<u8>>, n: nat, i: int, name: Seq<char>)
    requires
        n <= files.len(),
        forall|k: int| 0 <= k < n ==> checkpoint_tensors((#[trigger] files[k])@) is Some,
        -1 <= i < n,
        i >= 0 ==> checkpoint_tensors(files[i]@)->Some_0.dom().contains(name),
        forall|k: int|
            i < k < n ==> !checkpoint_tensors(
                (#[trigger] files[k])@,
            )->Some_0.dom().contains(name),
    ensures
        i >= 0 ==> {
            let (dtype, bytes) = checkpoint_tensors(files[i]@)->Some_0[name];
            merged(files, n).dom().contains(name) && merged(files, n)[name] == f32_data(
                dtype,
                bytes,
            )
        },
        i == -1 ==> !merged(files, n).dom().contains(name),
    decreases n,
{
    if n > 0 {
        let last = checkpoint_tensors(files[n - 1]@)->Some_0;
        assert(files[n - 1]@ == files[n - 1]@);
        if i < n - 1 {
            the_last_file_counts(files, (n - 1) as nat, i, name);
            assert(!last.dom().contains(name));
            assert(!decoded(last).dom().contains(name));
        } else {
            assert(decoded(last).dom().contains(name));
        }
    }
}

/// A header's length is the little-endian number in the first eight bytes of a file. Its
/// declaration is looked at where the file holds it and it is no longer than a hundred
/// million bytes; the file is beyond reach where the end that it declares is no word.
pub proof fn headers_declare_their_end(bytes: Seq<u8>)
    requires
        bytes.len() >= 8,
    ensures
        ({
            let n = bytes[0] + 0x100 * (bytes[1] + 0x100 * (bytes[2] + 0x100 * (bytes[3] + 0x100 * (
            bytes[4] + 0x100 * (bytes[5] + 0x100 * (bytes[6] + 0x100 * bytes[7]))))));
            &&& header_len(bytes) == n
            &&& !header_fits(bytes) <==> 8 + n <= bytes.len() && n <= 100_000_000 && (declared_len(
                bytes.subrange(8, 8 + n),
            ) matches Some(data) && 8 + n + data > usize::MAX)
        }),
{
}

/// A file can be loaded exactly where its declared end is within reach, it is valid, and
/// each of its tensors has one of the three element types.
pub proof fn loadable_files(bytes: Seq<u8>)
    ensures
        is_loadable(bytes) <==> header_fits(bytes) && (checkpoint_tensors(bytes) matches Some(
            tensors,
        ) && forall|name: Seq<char>|
            #![trigger tensors[name]]
            tensors.dom().contains(name) ==> tensors[name].0 == "F32"@ || tensors[name].0
                == "BF16"@ || tensors[name].0 == "F16"@),
        forall|dtype: Seq<char>| #[trigger]
            holds_dtype(bytes, dtype) <==> (checkpoint_tensors(bytes) matches Some(tensors)
                && exists|name: Seq<char>|
                #![trigger tensors[name]]
                tensors.dom().contains(name) && tensors[name].0 == dtype),
{
}

/// The tensors of a list can be decoded where each of them has one of the three element
/// types; the first `n` files of a checkpoint can be loaded where each of them can.
pub proof fn decodable_lists(list: Seq<RawTensor>, files: Seq<Vec<u8>>, n: int, dtype: Seq<char>)
    ensures
        distinct_names(list) <==> forall|i: int, j: int|
            0 <= i < list.len() && 0 <= j < list.len() && i != j ==> (#[trigger] list[i]).name@ != (
            #[trigger] list[j]).name@,
        distinct_names(list) ==> (all_supported(by_name(list)) <==> forall|i: int|
            0 <= i < list.len() ==> {
                let name = (#[trigger] list[i]).dtype@;
                name == "F32"@ || name == "BF16"@ || name == "F16"@
            }),
        distinct_names(list) ==> (has_dtype(by_name(list), dtype) <==> exists|i: int|
            0 <= i < list.len() && (#[trigger] list[i]).dtype@ == dtype),
        loadable_before(files, n) <==> forall|k: int|
            0 <= k < n ==> is_loadable((#[trigger] files[k])@),
{
    if forall|i: int, j: int|
        0 <= i < list.len() && 0 <= j < list.len() && i != j ==> (#[trigger] list[i]).name@ != (
        #[trigger] list[j]).name@ {
        assert(distinct_names(list));
    }
    if distinct_names(list) {
        let tensors = by_name(list);
        assert forall|i: int| 0 <= i < list.len() implies tensors.dom().contains(
            (#[trigger] list[i]).name@,
        ) && tensors[list[i].name@].0 == list[i].dtype@ by {
            lemma_by_name(list, i);
        }
        assert forall|name: Seq<char>| #[trigger] tensors.dom().contains(name) implies exists|i: int|
            0 <= i < list.len() && (#[trigger] list[i]).name@ == name && tensors[name].0
                == list[i].dtype@ by {
            let i = lemma_named(list, name);
            assert(list[i].name@ == name);
        }
    }
}

// ---------------------------------------------------------------------------
// Keys
// ---------------------------------------------------------------------------
/// `s` ends with `tail`.
pub open spec fn has_suffix(s: Seq<char>, tail: Seq<char>) -> bool {
    tail.len() <= s.len() && s.skip(s.len() - tail.len()) == tail
}

/// `s` with every occurrence of `pat`, from the left, replaced by `with`.
pub open spec fn replaced(s: Seq<char>, pat: Seq<char>, with: Seq<char>) -> Seq<char>
    decreases s.len(),
{
    if pat.len() == 0 || s.len() < pat.len() {
        s
    } else if s.take(pat.len() as int) == pat {
        with + replaced(s.skip(pat.len() as int), pat, with)
    } else {
        seq![s[0]] + replaced(s.skip(1), pat, with)
    }
}

fn ends_with(s: &str, tail: &str) -> (r: bool)
    ensures
        r == has_suffix(s@, tail@),
{
    let n: usize = s.unicode_len();
    let k: usize = tail.unicode_len();
    if k > n {
        return false;
    }
    let end: String = s.substring_char(n - k, n).to_string();
    assert(s@.subrange(n - k, n as int) =~= s@.skip(n - k));
    end == tail.to_string()
}

fn replace(s: &str, pat: &str, with: &str) -> (r: String)
    requires
        pat@.len() > 0,
    ensures
        r@ == replaced(s@, pat@, with@),
{
    let n: usize = s.unicode_len();
    let k: usize = pat.unicode_len();
    let pattern: String = pat.to_string();
    let mut out: String = String::new();
    let mut i: usize = 0;
    assert(s@.skip(0) =~= s@);
    assert(out@ + replaced(s@, pat@, with@) =~= replaced(s@, pat@, with@));
    while i < n && k <= n - i
        invariant
            n == s@.len(),
            k == pat@.len(),
            k > 0,
            pattern@ == pat@,
            i <= n,
            out@ + replaced(s@.skip(i as int), pat@, with@) == replaced(s@, pat@, with@),
        decreases n - i,
    {
        let head: String = s.substring_char(i, i + k).to_string();
        let ghost rest = s@.skip(i as int);
        assert(s@.subrange(i as int, i + k) =~= rest.take(k as int));
        if head == pattern {
            let ghost before = out@;
            out.append(with);
            proof {
                assert(rest.skip(k as int) =~= s@.skip(i + k));
                let tail = replaced(s@.skip(i + k), pat@, with@);
                assert(before + (with@ + tail) =~= (before + with@) + tail);
            }
            i += k;
        } else {
            let one: &str = s.substring_char(i, i + 1);
            let ghost before = out@;
            out.append(one);
            proof {
                assert(one@ =~= seq![rest[0]]);
                assert(rest.skip(1) =~= s@.skip(i + 1));
                let tail = replaced(s@.skip(i + 1), pat@, with@);
                assert(before + (seq![rest[0]] + tail) =~= (before + seq![rest[0]]) + tail);
            }
            i += 1;
        }
    }
    let ghost before = out@;
    out.append(s.substring_char(i, n));
    assert(s@.subrange(i as int, n as int) =~= s@.skip(i as int));
    out
}

/// The fused weight's suffix in the graph.
pub open spec fn fused_suffix() -> Seq<char> {
    ".gate_up_proj.weight"@
}

/// The key of the first half of the fused weight `key`.
pub open spec fn gate_key(key: Seq<char>) -> Seq<char> {
    replaced(key, fused_suffix(), ".gate_proj.weight"@)
}

/// The key of the second half of the fused weight `key`.
pub open spec fn up_key(key: Seq<char>) -> Seq<char> {
    replaced(key, fused_suffix(), ".up_proj.weight"@)
}

/// `pat` stands in `s` at position `i`.
pub open spec fn occurs_at(s: Seq<char>, pat: Seq<char>, i: int) -> bool {
    0 <= i && i + pat.len() <= s.len() && s.subrange(i, i + pat.len()) == pat
}

/// Where a pattern stands at the end of a text and nowhere before, replacing it
/// replaces the end.
proof fn lemma_replaced_at_end(prefix: Seq<char>, pat: Seq<char>, with: Seq<char>)
    requires
        pat.len() > 0,
        forall|i: int| 0 <= i < prefix.len() ==> !occurs_at(prefix + pat, pat, i),
    ensures
        replaced(prefix + pat, pat, with) == prefix + with,
    decreases prefix.len(),
{
    let s = prefix + pat;
    if prefix.len() == 0 {
        assert(s.take(pat.len() as int) =~= pat);
        assert(s.skip(pat.len() as int) =~= Seq::empty());
        assert(replaced(Seq::empty(), pat, with) =~= Seq::empty());
        assert(with + Seq::empty() =~= prefix + with);
    } else {
        assert(!occurs_at(s, pat, 0));
        assert(s.take(pat.len() as int) =~= s.subrange(0, pat.len() as int));
        let rest = prefix.skip(1);
        assert(s.skip(1) =~= rest + pat);
        assert forall|i: int| 0 <= i < rest.len() implies !occurs_at(rest + pat, pat, i) by {
            assert(!occurs_at(s, pat, i + 1));
            if i + pat.len() <= (rest + pat).len() {
                assert((rest + pat).subrange(i, i + pat.len()) =~= s.subrange(
                    i + 1,
                    i + 1 + pat.len(),
                ));
            }
        }
        lemma_replaced_at_end(rest, pat, with);
        assert(seq![s[0]] + (rest + with) =~= prefix + with);
    }
}

/// The halves of the fused weight `prefix.gate_up_proj.weight` are
/// `prefix.gate_proj.weight` and `prefix.up_proj.weight`.
pub proof fn fused_weight_halves(prefix: Seq<char>)
    requires
        forall|i: int|
            0 <= i < prefix.len() ==> !occurs_at(prefix + fused_suffix(), fused_suffix(), i),
    ensures
        has_suffix(prefix + fused_suffix(), fused_suffix()),
        gate_key(prefix + fused_suffix()) == prefix + ".gate_proj.weight"@,
        up_key(prefix + fused_suffix()) == prefix + ".up_proj.weight"@,
{
    reveal_strlit(".gate_up_proj.weight");
    lemma_replaced_at_end(prefix, fused_suffix(), ".gate_proj.weight"@);
    lemma_replaced_at_end(prefix, fused_suffix(), ".up_proj.weight"@);
    let s = prefix + fused_suffix();
    assert(s.skip(s.len() - fused_suffix().len()) =~= fused_suffix());
}

/// The data for the graph parameter `key`. A fused gate+up weight is the concatenation
/// of its halves; any other is the tensor of its name.
pub open spec fn weight_data(key: Seq<char>, raw: Map<Seq<char>, Seq<F32Bits>>) -> Option<
    Seq<F32Bits>,
> {
    let (gate, up) = (gate_key(key), up_key(key));
    if has_suffix(key, fused_suffix()) {
        if raw.dom().contains(gate) && raw.dom().contains(up) {
            Some(raw[gate] + raw[up])
        } else {
            None
        }
    } else if raw.dom().contains(key) {
        Some(raw[key])
    } else {
        None
    }
}

/// `e` says which tensor is missing for the graph parameter `key`: the parameter itself,
/// or the first half of a fused weight that is.
pub open spec fn reports_missing(
    e: LoadError,
    key: Seq<char>,
    raw: Map<Seq<char>, Seq<F32Bits>>,
) -> bool {
    let fused = has_suffix(key, fused_suffix());
    match e {
        LoadError::MissingPart(name) => fused && name@ == (if raw.dom().contains(gate_key(key)) {
            up_key(key)
        } else {
            gate_key(key)
        }),
        LoadError::MissingWeight(name) => !fused && name@ == key,
        _ => false,
    }
}

/// A fused weight is its halves one after the other, for all lengths: the data is as long
/// as both together, begins with the gating half and ends with the up half, element by
/// element. It exists exactly where both halves do.
pub proof fn fused_weights_hold_gate_then_up(key: Seq<char>, raw: Map<Seq<char>, Seq<F32Bits>>)
    requires
        exists|prefix: Seq<char>| key == #[trigger] (prefix + ".gate_up_proj.weight"@),
    ensures
        ({
            let gate = replaced(key, ".gate_up_proj.weight"@, ".gate_proj.weight"@);
            let up = replaced(key, ".gate_up_proj.weight"@, ".up_proj.weight"@);
            match weight_data(key, raw) {
                Some(data) => {
                    &&& raw.dom().contains(gate) && raw.dom().contains(up)
                    &&& data.len() == raw[gate].len() + raw[up].len()
                    &&& forall|i: int| 0 <= i < raw[gate].len() ==> #[trigger] data[i] == raw[gate][i]
                    &&& forall|i: int|
                        raw[gate].len() <= i < data.len() ==> #[trigger] data[i]
                            == raw[up][i - raw[gate].len()]
                },
                None => !(raw.dom().contains(gate) && raw.dom().contains(up)),
            }
        }),
{
    let prefix = choose|prefix: Seq<char>| key == #[trigger] (prefix + ".gate_up_proj.weight"@);
    assert(key.skip(key.len() - fused_suffix().len()) =~= fused_suffix());
}

/// The weight `prefix.gate_up_proj.weight` is that of `prefix.gate_proj.weight` followed by
/// that of `prefix.up_proj.weight`; where one of them is missing, the error names the first
/// that is.
pub proof fn fused_weights_by_name(
    prefix: Seq<char>,
    raw: Map<Seq<char>, Seq<F32Bits>>,
    e: LoadError,
)
    requires
        forall|i: int|
            0 <= i < prefix.len() ==> #[trigger] (prefix + ".gate_up_proj.weight"@).subrange(
                i,
                i + 20,
            ) != ".gate_up_proj.weight"@,
    ensures
        ({
            let key = prefix + ".gate_up_proj.weight"@;
            let gate = prefix + ".gate_proj.weight"@;
            let up = prefix + ".up_proj.weight"@;
            &&& raw.dom().contains(gate) && raw.dom().contains(up) ==> {
                &&& weight_data(key, raw) matches Some(data)
                &&& data.len() == raw[gate].len() + raw[up].len()
                &&& data.take(raw[gate].len() as int) == raw[gate]
                &&& data.skip(raw[gate].len() as int) == raw[up]
            }
            &&& !raw.dom().contains(gate) ==> {
                &&& weight_data(key, raw) is None
                &&& reports_missing(e, key, raw) <==> (e matches LoadError::MissingPart(name)
                    && name@ == gate)
            }
            &&& raw.dom().contains(gate) && !raw.dom().contains(up) ==> {
                &&& weight_data(key, raw) is None
                &&& reports_missing(e, key, raw) <==> (e matches LoadError::MissingPart(name)
                    && name@ == up)
            }
        }),
{
    reveal_strlit(".gate_up_proj.weight");
    let key = prefix + fused_suffix();
    assert forall|i: int| 0 <= i < prefix.len() implies !occurs_at(key, fused_suffix(), i) by {
        assert(key.subrange(i, i + 20) != ".gate_up_proj.weight"@);
    }
    fused_weight_halves(prefix);
    let gate = prefix + ".gate_proj.weight"@;
    let up = prefix + ".up_proj.weight"@;
    if raw.dom().contains(gate) && raw.dom().contains(up) {
        let data = weight_data(key, raw)->Some_0;
        assert(data.take(raw[gate].len() as int) =~= raw[gate]);
        assert(data.skip(raw[gate].len() as int) =~= raw[up]);
    }
}

/// Any other weight is the tensor of its own name, and is missing exactly where that is;
/// the error then names the weight.
pub proof fn other_weights_by_name(
    key: Seq<char>,
    raw: Map<Seq<char>, Seq<F32Bits>>,
    e: LoadError,
)
    requires
        forall|prefix: Seq<char>| key != #[trigger] (prefix + ".gate_up_proj.weight"@),
    ensures
        raw.dom().contains(key) ==> weight_data(key, raw) == Some(raw[key]),
        !raw.dom().contains(key) ==> weight_data(key, raw) is None,
        reports_missing(e, key, raw) <==> (e matches LoadError::MissingWeight(name) && name@
            == key),
{
    if has_suffix(key, fused_suffix()) {
        let prefix = key.take(key.len() - fused_suffix().len());
        assert(key =~= prefix + ".gate_up_proj.weight"@);
    }
}

/// Replacing works from the left: what stands before the first occurrence of the pattern
/// stays, the occurrence gives way, and the rest is treated alike.
pub proof fn replacing_works_from_the_left(
    head: Seq<char>,
    pat: Seq<char>,
    tail: Seq<char>,
    with: Seq<char>,
)
    requires
        pat.len() > 0,
        forall|i: int|
            0 <= i < head.len() ==> #[trigger] (head + pat + tail).subrange(i, i + pat.len())
                != pat,
    ensures
        replaced(head + pat + tail, pat, with) == head + with + replaced(tail, pat, with),
    decreases head.len(),
{
    let s = head + pat + tail;
    let n = pat.len() as int;
    if head.len() == 0 {
        assert(s.take(n) =~= pat);
        assert(s.skip(n) =~= tail);
        assert(with + replaced(tail, pat, with) =~= head + with + replaced(tail, pat, with));
    } else {
        let rest = head.skip(1);
        let t = rest + pat + tail;
        assert(s.skip(1) =~= t);
        assert(s.subrange(0, 0 + n) != pat);
        assert(s.take(n) =~= s.subrange(0, 0 + n));
        assert forall|i: int| 0 <= i < rest.len() implies #[trigger] t.subrange(i, i + pat.len())
            != pat by {
            assert(t.subrange(i, i + n) =~= s.subrange(i + 1, i + 1 + n));
        }
        replacing_works_from_the_left(rest, pat, tail, with);
        assert(seq![s[0]] + (rest + with + replaced(tail, pat, with)) =~= head + with + replaced(
            tail,
            pat,
            with,
        ));
    }
}

/// A text without the pattern stays as it is.
pub proof fn replacing_nothing(s: Seq<char>, pat: Seq<char>, with: Seq<char>)
    requires
        pat.len() > 0,
        forall|i: int|
            0 <= i && i + pat.len() <= s.len() ==> #[trigger] s.subrange(i, i + pat.len()) != pat,
    ensures
        replaced(s, pat, with) == s,
    decreases s.len(),
{
    let n = pat.len() as int;
    if s.len() >= n {
        let rest = s.skip(1);
        assert(s.subrange(0, 0 + n) != pat);
        assert(s.take(n) =~= s.subrange(0, 0 + n));
        assert forall|i: int| 0 <= i && i + pat.len() <= rest.len() implies #[trigger]
            rest.subrange(i, i + pat.len()) != pat by {
            assert(rest.subrange(i, i + n) =~= s.subrange(i + 1, i + 1 + n));
        }
        replacing_nothing(rest, pat, with);
        assert(seq![s[0]] + rest =~= s);
    }
}

/// Finds the data for the graph parameter `key`.
pub fn resolve_weight(key: &str, raw: &Tensors) -> (r: Result<Vec<F32Bits>, LoadError>)
    ensures
        match r {
            Ok(data) => weight_data(key@, raw@) == Some(data@),
            Err(e) => weight_data(key@, raw@) is None && reports_missing(e, key@, raw@),
        },
{
    proof {
        reveal_strlit(".gate_up_proj.weight");
    }
    if ends_with(key, ".gate_up_proj.weight") {
        // Fused: concatenate gate_proj + up_proj along dim 0.
        let gate_name: String = replace(key, ".gate_up_proj.weight", ".gate_proj.weight");
        let up_name: String = replace(key, ".gate_up_proj.weight", ".up_proj.weight");
        let gate: &Vec<F32Bits> = match raw.get(gate_name.as_str()) {
            Some(data) => data,
            None => {
                return Err(LoadError::MissingPart(gate_name));
            },
        };
        let up: &Vec<F32Bits> = match raw.get(up_name.as_str()) {
            Some(data) => data,
            None => {
                return Err(LoadError::MissingPart(up_name));
            },
        };
        let mut data: Vec<F32Bits> = copy_data(gate);
        let mut i: usize = 0;
        assert(data@ =~= gate@ + up@.take(0));
        while i < up.len()
            invariant
                i <= up@.len(),
                data@ == gate@ + up@.take(i as int),
            decreases up@.len() - i,
        {
            data.push(up[i]);
            i += 1;
            assert(data@ =~= gate@ + up@.take(i as int));
        }
        assert(up@.take(i as int) =~= up@);
        Ok(data)
    } else {
        match raw.get(key) {
            Some(data) => Ok(copy_data(data)),
            None => Err(LoadError::MissingWeight(key.to_string())),
        }
    }
}

/// Finds the data for the graph parameters `keys`, in order, up to the first one that is
/// missing, and says what is.
pub fn resolve_weights(keys: &Vec<String>, raw: &Tensors) -> (r: (
    Vec<Vec<F32Bits>>,
    Option<LoadError>,
))
    ensures
        r.0@.len() <= keys@.len(),
        forall|i: int|
            0 <= i < r.0@.len() ==> weight_data(keys@[i]@, raw@) == Some((#[trigger] r.0@[i])@),
        match r.1 {
            None => r.0@.len() == keys@.len(),
            Some(e) => {
                &&& r.0@.len() < keys@.len()
                &&& weight_data(keys@[r.0@.len() as int]@, raw@) is None
                &&& reports_missing(e, keys@[r.0@.len() as int]@, raw@)
            },
        },
{
    let mut data: Vec<Vec<F32Bits>> = Vec::new();
    let mut i: usize = 0;
    while i < keys.len()
        invariant
            i <= keys@.len(),
            data@.len() == i,
            forall|k: int|
                0 <= k < i ==> weight_data(keys@[k]@, raw@) == Some((#[trigger] data@[k])@),
        decreases keys@.len() - i,
    {
        match resolve_weight(keys[i].as_str(), raw) {
            Ok(found) => {
                data.push(found);
            },
            Err(e) => {
                return (data, Some(e));
            },
        }
        i += 1;
    }
    (data, None)
}

fn copy_data(data: &Vec<F32Bits>) -> (r: Vec<F32Bits>)
    ensures
        r@ == data@,
{
    let r = data.clone();
    assert(r@ =~= data@);
    r
}

// ---------------------------------------------------------------------------
// File names
// ---------------------------------------------------------------------------
/// `.safetensors`, in bytes.
pub open spec fn checkpoint_suffix() -> Seq<u8> {
    seq![0x2E, 0x73, 0x61, 0x66, 0x65, 0x74, 0x65, 0x6E, 0x73, 0x6F, 0x72, 0x73]
}

/// A file name has the extension `safetensors`: the suffix, behind at least one byte.
pub open spec fn is_checkpoint(name: Seq<u8>) -> bool {
    name.len() > 12 && name.skip(name.len() - 12) == checkpoint_suffix()
}

/// `a` comes before `b` in lexicographic order of bytes.
pub open spec fn comes_before(a: Seq<u8>, b: Seq<u8>) -> bool
    decreases a.len(),
{
    if b.len() == 0 {
        false
    } else if a.len() == 0 {
        true
    } else if a[0] == b[0] {
        comes_before(a.skip(1), b.skip(1))
    } else {
        a[0] < b[0]
    }
}

fn name_is_checkpoint(name: &Vec<u8>) -> (r: bool)
    ensures
        r == is_checkpoint(name@),
{
    let n: usize = name.len();
    if n <= 12 {
        return false;
    }
    let tail: [u8; 12] = [
        0x2E,
        0x73,
        0x61,
        0x66,
        0x65,
        0x74,
        0x65,
        0x6E,
        0x73,
        0x6F,
        0x72,
        0x73,
    ];
    assert(tail@ =~= checkpoint_suffix());
    let mut i: usize = 0;
    while i < 12
        invariant
            n == name@.len(),
            n > 12,
            i <= 12,
            tail@ == checkpoint_suffix(),
            forall|k: int| 0 <= k < i ==> name@[n - 12 + k] == #[trigger] tail@[k],
        decreases 12 - i,
    {
        if name[n - 12 + i] != tail[i] {
            assert(name@.skip(n - 12)[i as int] != checkpoint_suffix()[i as int]);
            return false;
        }
        i += 1;
    }
    assert(name@.skip(n - 12) =~= checkpoint_suffix());
    true
}

fn name_before(a: &Vec<u8>, b: &Vec<u8>) -> (r: bool)
    ensures
        r == comes_before(a@, b@),
{
    let mut i: usize = 0;
    assert(a@.skip(0) =~= a@);
    assert(b@.skip(0) =~= b@);
    while i < a.len() && i < b.len()
        invariant
            i <= a@.len(),
            i <= b@.len(),
            comes_before(a@.skip(i as int), b@.skip(i as int)) == comes_before(a@, b@),
        decreases a@.len() - i,
    {
        if a[i] != b[i] {
            return a[i] < b[i];
        }
        assert(a@.skip(i as int).skip(1) =~= a@.skip(i + 1));
        assert(b@.skip(i as int).skip(1) =~= b@.skip(i + 1));
        i += 1;
    }
    i < b.len()
}

/// `order` lists file names none of which comes before an earlier one.
pub open spec fn in_name_order(names: Seq<Vec<u8>>, order: Seq<usize>) -> bool {
    forall|i: int, j: int|
        0 <= i < j < order.len() ==> !comes_before(
            names[#[trigger] order[j] as int]@,
            names[#[trigger] order[i] as int]@,
        )
}

/// Nothing comes before itself, and of two distinct names one comes before the other.
pub proof fn names_are_ordered(a: Seq<u8>, b: Seq<u8>)
    ensures
        !(comes_before(a, b) && comes_before(b, a)),
        a == b || comes_before(a, b) || comes_before(b, a),
    decreases a.len(),
{
    if a.len() > 0 && b.len() > 0 && a[0] == b[0] {
        names_are_ordered(a.skip(1), b.skip(1));
        if a.skip(1) == b.skip(1) {
            assert(a =~= seq![a[0]] + a.skip(1));
            assert(b =~= seq![b[0]] + b.skip(1));
        }
    } else if a.len() == 0 && b.len() == 0 {
        assert(a =~= b);
    }
}

/// Names are ordered by their first difference, and a name comes before its extensions.
pub proof fn names_by_first_difference(a: Seq<u8>, b: Seq<u8>, k: int)
    requires
        0 <= k <= a.len(),
        k <= b.len(),
        forall|i: int| 0 <= i < k ==> a[i] == #[trigger] b[i],
    ensures
        k < a.len() && k < b.len() && a[k] != b[k] ==> (comes_before(a, b) <==> a[k] < b[k]),
        k == a.len() ==> (comes_before(a, b) <==> a.len() < b.len()),
        k == b.len() ==> !comes_before(a, b),
    decreases k,
{
    if k > 0 {
        assert(a[0] == b[0]);
        let (p, q) = (a.skip(1), b.skip(1));
        assert forall|i: int| 0 <= i < k - 1 implies p[i] == #[trigger] q[i] by {
            assert(a[i + 1] == b[i + 1]);
        }
        names_by_first_difference(p, q, k - 1);
    }
}

/// A name is a checkpoint's exactly where it is a non-empty stem with `.safetensors`
/// behind it.
pub proof fn checkpoints_by_extension(name: Seq<u8>, stem: Seq<u8>)
    ensures
        ({
            let dot = seq![0x2Eu8];
            let safe = seq![0x73u8, 0x61u8, 0x66u8, 0x65u8];
            let tensors = seq![0x74u8, 0x65u8, 0x6Eu8, 0x73u8, 0x6Fu8, 0x72u8, 0x73u8];
            &&& stem.len() > 0 ==> is_checkpoint(stem + dot + safe + tensors)
            &&& is_checkpoint(name) ==> name.len() > 12 && name == name.take(name.len() - 12) + dot
                + safe + tensors
        }),
{
    let tail = seq![0x2Eu8] + seq![0x73u8, 0x61u8, 0x66u8, 0x65u8] + seq![
        0x74u8,
        0x65u8,
        0x6Eu8,
        0x73u8,
        0x6Fu8,
        0x72u8,
        0x73u8,
    ];
    assert(tail =~= checkpoint_suffix());
    let full = stem + seq![0x2Eu8] + seq![0x73u8, 0x61u8, 0x66u8, 0x65u8] + seq![
        0x74u8,
        0x65u8,
        0x6Eu8,
        0x73u8,
        0x6Fu8,
        0x72u8,
        0x73u8,
    ];
    assert(full =~= stem + tail);
    assert(full.skip(full.len() - 12) =~= tail);
    if is_checkpoint(name) {
        assert(name =~= name.take(name.len() - 12) + name.skip(name.len() - 12));
        assert(name.take(name.len() - 12) + tail =~= name.take(name.len() - 12) + seq![0x2Eu8]
            + seq![0x73u8, 0x61u8, 0x66u8, 0x65u8] + seq![
            0x74u8,
            0x65u8,
            0x6Eu8,
            0x73u8,
            0x6Fu8,
            0x72u8,
            0x73u8,
        ]);
    }
}

/// What comes before what does not come after comes before.
proof fn lemma_before_transitive(a: Seq<u8>, b: Seq<u8>, c: Seq<u8>)
    requires
        comes_before(a, b),
        !comes_before(c, b),
    ensures
        comes_before(a, c),
    decreases a.len(),
{
    if a.len() > 0 && b.len() > 0 && c.len() > 0 && a[0] == b[0] && b[0] == c[0] {
        lemma_before_transitive(a.skip(1), b.skip(1), c.skip(1));
    }
}

/// The checkpoint files among the entries of a directory, in the order of their names:
/// the positions of the names with extension `safetensors`.
pub fn select_checkpoints(names: &Vec<Vec<u8>>) -> (order: Vec<usize>)
    ensures
        order@.no_duplicates(),
        forall|i: int|
            0 <= i < order@.len() ==> (#[trigger] order@[i]) < names@.len() && is_checkpoint(
                names@[order@[i] as int]@,
            ),
        forall|k: int|
            0 <= k < names@.len() && is_checkpoint((#[trigger] names@[k])@) ==> order@.contains(
                k as usize,
            ),
        in_name_order(names@, order@),
        forall|i: int, j: int|
            0 <= i < j < order@.len() ==> names@[#[trigger] order@[i] as int]@
                == names@[#[trigger] order@[j] as int]@ || comes_before(
                names@[order@[i] as int]@,
                names@[order@[j] as int]@,
            ),
{
    let mut order: Vec<usize> = Vec::new();
    let mut k: usize = 0;
    while k < names.len()
        invariant
            k <= names@.len(),
            order@.no_duplicates(),
            forall|i: int|
                0 <= i < order@.len() ==> (#[trigger] order@[i]) < k && is_checkpoint(
                    names@[order@[i] as int]@,
                ),
            forall|j: int|
                0 <= j < k && is_checkpoint((#[trigger] names@[j])@) ==> order@.contains(
                    j as usize,
                ),
            in_name_order(names@, order@),
        decreases names@.len() - k,
    {
        if name_is_checkpoint(&names[k]) {
            let ghost before = order@;
            insert_by_name(names, &mut order, k);
            proof {
                let at = choose|at: int|
                    0 <= at <= before.len() && order@ == #[trigger] before.insert(at, k);
                assert(order@[at] == k);
                assert forall|j: int|
                    0 <= j <= k && is_checkpoint((#[trigger] names@[j])@) implies order@.contains(
                    j as usize,
                ) by {
                    if j < k {
                        let p = before.index_of(j as usize);
                        assert(before[p] == j as usize);
                        if p < at {
                            assert(order@[p] == j as usize);
                        } else {
                            assert(order@[p + 1] == j as usize);
                        }
                    }
                }
            }
        }
        k += 1;
    }
    proof {
        assert forall|i: int, j: int| 0 <= i < j < order@.len() implies names@[#[trigger] order@[
            i
        ] as int]@ == names@[#[trigger] order@[j] as int]@ || comes_before(
            names@[order@[i] as int]@,
            names@[order@[j] as int]@,
        ) by {
            names_are_ordered(names@[order@[i] as int]@, names@[order@[j] as int]@);
        }
    }
    order
}

/// Inserts `k` into a list in name order, behind the names that do not come after it.
fn insert_by_name(names: &Vec<Vec<u8>>, order: &mut Vec<usize>, k: usize)
    requires
        k < names@.len(),
        forall|i: int| 0 <= i < old(order)@.len() ==> (#[trigger] old(order)@[i]) < k,
        in_name_order(names@, old(order)@),
    ensures
        in_name_order(names@, final(order)@),
        exists|at: int|
            0 <= at <= old(order)@.len() && final(order)@ == #[trigger] old(order)@.insert(at, k),
{
    let ghost before = order@;
    let mut at: usize = order.len();
    while at > 0 && name_before(&names[k], &names[order[at - 1]])
        invariant
            at <= order@.len(),
            order@ == before,
            k < names@.len(),
            forall|i: int| 0 <= i < before.len() ==> (#[trigger] before[i]) < k,
            forall|i: int|
                at <= i < before.len() ==> comes_before(
                    names@[k as int]@,
                    names@[#[trigger] before[i] as int]@,
                ),
        decreases at,
    {
        at -= 1;
    }
    order.insert(at, k);
    proof {
        let after = before.insert(at as int, k);
        assert(order@ =~= after);
        assert forall|i: int, j: int| 0 <= i < j < after.len() implies !comes_before(
            names@[#[trigger] after[j] as int]@,
            names@[#[trigger] after[i] as int]@,
        ) by {
            let new = names@[k as int]@;
            if j == at {
                let last = names@[before[at - 1] as int]@;
                let x = names@[before[i] as int]@;
                if comes_before(new, x) {
                    if i < at - 1 {
                        assert(!comes_before(last, x));
                        lemma_before_transitive(new, x, last);
                    }
                }
            } else if i == at {
                names_are_ordered(new, names@[before[j - 1] as int]@);
            } else {
                let bi = if i < at {
                    i
                } else {
                    i - 1
                };
                let bj = if j < at {
                    j
                } else {
                    j - 1
                };
                assert(after[i] == before[bi] && after[j] == before[bj]);
            }
        }
    }
}

} // verus!
