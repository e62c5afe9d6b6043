//! The tray icon: one of two `.ico` files, picked by configuration and WSL2
//! state, and in it the image closest to the size the tray wants.
//!
//! [`load`] reads the `.ico` container's `ICONDIR`/`ICONDIRENTRY` structures
//! to find that image and gives its raw bytes, classic DIB or PNG-compressed,
//! as `CreateIconFromResourceEx` takes them.

use vstd::prelude::*;

use crate::bytes;

verus! {

/// Which of the two icons to load.
#[derive(Clone, Copy, Debug, PartialEq, Eq, Structural)]
pub enum Kind {
    Color,
    Mono,
}

/// The contents of the two `.ico` files.
pub struct IconFiles {
    pub color: Vec<u8>,
    pub mono: Vec<u8>,
}

impl IconFiles {
    /// The contents of the file for `kind`.
    pub open spec fn of(&self, kind: Kind) -> Seq<u8> {
        match kind {
            Kind::Color => self.color@,
            Kind::Mono => self.mono@,
        }
    }
}

/// One `ICONDIRENTRY`: the pixel width of that image and where its bits live
/// in the file.
#[derive(Clone, Copy, Debug, PartialEq, Eq, Structural)]
pub struct Entry {
    pub width: u32,
    pub offset: usize,
    pub len: usize,
}

/// How many images the header promises.
pub open spec fn image_count(data: Seq<u8>) -> int {
    bytes::le(data, 4, 2) as int
}

/// Where the `i`-th `ICONDIRENTRY` starts.
pub open spec fn record_start(i: int) -> int {
    6 + i * 16
}

/// The `i`-th `ICONDIRENTRY`. A stored width of 0 stands for 256 pixels.
pub open spec fn record(data: Seq<u8>, i: int) -> Entry {
    let at = record_start(i);
    Entry {
        width: if data[at] == 0 {
            256
        } else {
            data[at] as u32
        },
        offset: bytes::le(data, at + 12, 4) as usize,
        len: bytes::le(data, at + 8, 4) as usize,
    }
}

/// What keeps a directory from being read, if anything does.
pub open spec fn directory_error(data: Seq<u8>) -> Option<Seq<char>> {
    if data.len() < 6 {
        Some("truncated ICO header"@)
    } else if data.len() < record_start(image_count(data)) {
        Some("truncated ICONDIRENTRY"@)
    } else if image_count(data) == 0 {
        Some("ICO file has no images"@)
    } else {
        None
    }
}

/// How far a width is from the wanted size.
pub open spec fn distance(width: u32, size: usize) -> int {
    if width >= size {
        width - size
    } else {
        size - width
    }
}

/// Whether a width suits the wanted size better than another: it is closer,
/// or as close and larger, so that the shell downscales rather than upscales.
pub open spec fn better(a: u32, b: u32, size: usize) -> bool {
    ||| distance(a, size) < distance(b, size)
    ||| distance(a, size) == distance(b, size) && a > b
}

/// Whether the `k`-th entry is the first of those that none is better than.
pub open spec fn best(data: Seq<u8>, size: usize, k: int) -> bool {
    &&& 0 <= k < image_count(data)
    &&& forall|j: int|
        0 <= j < image_count(data) ==> !better(
            (#[trigger] record(data, j)).width,
            record(data, k).width,
            size,
        )
    &&& forall|j: int|
        0 <= j < k ==> better(
            record(data, k).width,
            (#[trigger] record(data, j)).width,
            size,
        )
}

/// The bytes of the image that an entry points to, if they lie in the file.
pub open spec fn image(data: Seq<u8>, e: Entry) -> Option<Seq<u8>> {
    if e.offset + e.len <= data.len() {
        Some(data.subrange(e.offset as int, e.offset + e.len))
    } else {
        None
    }
}

/// At most one entry is the best.
pub proof fn law_best_is_unique(data: Seq<u8>, size: usize, k1: int, k2: int)
    requires
        best(data, size, k1),
        best(data, size, k2),
    ensures
        k1 == k2,
{
    let a = record(data, k1);
    let b = record(data, k2);
}

/// Where an image has exactly the wanted width, the best one has it.
pub proof fn law_exact_size_is_taken(data: Seq<u8>, size: usize, k: int, j: int)
    requires
        best(data, size, k),
        0 <= j < image_count(data),
        record(data, j).width == size,
    ensures
        record(data, k).width == size,
{
}

/// No image is closer to the wanted size than the best one, and none that is
/// as close is larger.
pub proof fn law_best_is_closest(data: Seq<u8>, size: usize, k: int, j: int)
    requires
        best(data, size, k),
        0 <= j < image_count(data),
    ensures
        distance(record(data, k).width, size) <= distance(record(data, j).width, size),
        distance(record(data, k).width, size) == distance(record(data, j).width, size)
            ==> record(data, k).width >= record(data, j).width,
{
}

/// Each kind has its own file.
pub proof fn law_each_kind_has_its_file(files: IconFiles, kind: Kind)
    ensures
        kind == Kind::Color ==> files.of(kind) == files.color@,
        kind != Kind::Color ==> files.of(kind) == files.mono@,
{
}

/// What an entry holds, byte by byte: the width in its first byte, where 0
/// stands for 256, the number of bytes of the image from its ninth byte on,
/// and their place in the file from its thirteenth on, both with the lowest
/// byte first.
pub proof fn law_bytes_of_an_entry(data: Seq<u8>, i: int)
    requires
        0 <= i,
        6 + 16 * (i + 1) <= data.len(),
    ensures
        ({
            let d = data.skip(6 + 16 * i);
            let e = record(data, i);
            &&& d[0] == 0 ==> e.width == 256
            &&& d[0] != 0 ==> e.width == d[0]
            &&& e.len == d[8] + 0x100 * d[9] + 0x1_0000 * d[10] + 0x100_0000 * d[11]
            &&& e.offset == d[12] + 0x100 * d[13] + 0x1_0000 * d[14] + 0x100_0000 * d[15]
        }),
{
    let at = record_start(i);
    bytes::law_lowest_byte_comes_first(data, at + 8);
    bytes::law_lowest_byte_comes_first(data, at + 12);
    let d = data.skip(6 + 16 * i);
    assert(forall|k: int| 0 <= k < 16 ==> #[trigger] d[k] == data[at + k]);
}

/// A directory can be read just where the header is there, promises an image,
/// and is followed by sixteen bytes for each that it promises. What else is
/// wrong is said in this order.
pub proof fn law_readable_directories(data: Seq<u8>)
    ensures
        ({
            let count = data[4] + 0x100 * data[5];
            &&& directory_error(data) is None <==> data.len() >= 6 && count > 0 && data.len() >= 6
                + 16 * count
            &&& data.len() < 6 ==> directory_error(data) == Some("truncated ICO header"@)
            &&& data.len() >= 6 && data.len() < 6 + 16 * count ==> directory_error(data) == Some(
                "truncated ICONDIRENTRY"@,
            )
            &&& data.len() >= 6 && count == 0 ==> directory_error(data) == Some(
                "ICO file has no images"@,
            )
        }),
{
    bytes::law_lowest_byte_comes_first(data, 4);
}

/// The entry that is taken is the one whose width is nearest to the wanted
/// size: the largest of those that are equally near, and the first of those
/// that are equally large.
pub proof fn law_nearest_width_is_taken(data: Seq<u8>, size: usize, k: int)
    requires
        data.len() >= 6,
        0 <= k < data[4] + 0x100 * data[5],
    ensures
        best(data, size, k) <==> forall|j: int|
            0 <= j < data[4] + 0x100 * data[5] ==> {
                let a = record(data, k).width as int;
                let b = (#[trigger] record(data, j)).width as int;
                let s = size as int;
                // The squares of the distances stand for the distances.
                &&& (a - s) * (a - s) <= (b - s) * (b - s)
                &&& (a - s) * (a - s) == (b - s) * (b - s) ==> a > b || (a == b && k <= j)
            },
{
    bytes::law_lowest_byte_comes_first(data, 4);
    let s = size as int;
    assert forall|j: int| #![trigger record(data, j)] true implies {
        let a = record(data, k).width as int;
        let b = record(data, j).width as int;
        let x = distance(record(data, k).width, size);
        let y = distance(record(data, j).width, size);
        &&& x < y <==> (a - s) * (a - s) < (b - s) * (b - s)
        &&& x == y <==> (a - s) * (a - s) == (b - s) * (b - s)
    } by {
        let a = record(data, k).width as int;
        let b = record(data, j).width as int;
        let x = distance(record(data, k).width, size);
        let y = distance(record(data, j).width, size);
        assert(x * x == (a - s) * (a - s)) by (nonlinear_arith)
            requires
                x == a - s || x == s - a,
        ;
        assert(y * y == (b - s) * (b - s)) by (nonlinear_arith)
            requires
                y == b - s || y == s - b,
        ;
        assert(x < y ==> x * x < y * y) by (nonlinear_arith)
            requires
                0 <= x,
                0 <= y,
        ;
        assert(y < x ==> y * y < x * x) by (nonlinear_arith)
            requires
                0 <= x,
                0 <= y,
        ;
    }
}

/// An image is taken from the file as it is, where all of it lies in the
/// file, and not otherwise.
pub proof fn law_image_is_taken_as_it_is(data: Seq<u8>, e: Entry)
    ensures
        image(data, e) is Some <==> e.offset + e.len <= data.len(),
        image(data, e) matches Some(bits) ==> bits.len() == e.len && forall|i: int|
            0 <= i < e.len ==> #[trigger] bits[i] == data[e.offset + i],
{
}

impl Kind {
    /// The contents of the file for this kind.
    pub fn bytes(self, files: &IconFiles) -> (data: &[u8])
        ensures
            data@ == files.of(self),
    {
        match self {
            Kind::Color => files.color.as_slice(),
            Kind::Mono => files.mono.as_slice(),
        }
    }
}

/// The image for `kind` at (as close as the `.ico` allows to) `size` pixels
/// square.
pub fn load<'a>(kind: Kind, size: usize, files: &'a IconFiles) -> (r: Result<&'a [u8], String>)
    ensures
        match r {
            Ok(bits) => {
                &&& directory_error(files.of(kind)) is None
                &&& exists|k: int| #[trigger]
                    best(files.of(kind), size, k) && image(files.of(kind), record(files.of(kind), k))
                        == Some(bits@)
            },
            Err(e) => {
                ||| directory_error(files.of(kind)) == Some(e@)
                ||| {
                    &&& directory_error(files.of(kind)) is None
                    &&& exists|k: int| #[trigger]
                        best(files.of(kind), size, k) && image(
                            files.of(kind),
                            record(files.of(kind), k),
                        ) is None
                    &&& e@ == "icon directory entry points outside the file"@
                }
            },
        },
{
    let data = kind.bytes(files);
    let entry = match best_entry(data, size) {
        Ok(entry) => entry,
        Err(e) => {
            return Err(e);
        },
    };
    if entry.offset > data.len() || entry.len > data.len() - entry.offset {
        return Err("icon directory entry points outside the file".to_string());
    }
    Ok(&data[entry.offset..entry.offset + entry.len])
}

/// Parses the `ICONDIR` header and `ICONDIRENTRY` array and returns the entry
/// whose (square) size is closest to `size`, biased towards the larger one on
/// a tie.
pub fn best_entry(data: &[u8], size: usize) -> (r: Result<Entry, String>)
    ensures
        match r {
            Ok(e) => {
                &&& directory_error(data@) is None
                &&& exists|k: int| #[trigger] best(data@, size, k) && e == record(data@, k)
            },
            Err(e) => directory_error(data@) == Some(e@),
        },
{
    let count: usize = match bytes::read_u16(data, 4) {
        Some(n) => n as usize,
        None => {
            return Err("truncated ICO header".to_string());
        },
    };
    let mut found: Option<Entry> = None;
    let ghost mut k: int = 0;
    let mut i: usize = 0;
    while i < count
        invariant
            count == image_count(data@),
            count <= 0xffff,
            6 <= data@.len(),
            i <= count,
            record_start(i as int) <= data@.len(),
            found is None <==> i == 0,
            found matches Some(e) ==> {
                &&& 0 <= k < i
                &&& e == record(data@, k)
                &&& forall|j: int|
                    0 <= j < i ==> !better(
                        (#[trigger] record(data@, j)).width,
                        record(data@, k).width,
                        size,
                    )
                &&& forall|j: int|
                    0 <= j < k ==> better(
                        record(data@, k).width,
                        (#[trigger] record(data@, j)).width,
                        size,
                    )
            },
        decreases count - i,
    {
        let at: usize = 6 + i * 16;
        if at >= data.len() {
            return Err("truncated ICONDIRENTRY".to_string());
        }
        let width: u32 = if data[at] == 0 {
            256
        } else {
            data[at] as u32
        };
        let (len, offset) = match (bytes::read_u32(data, at + 8), bytes::read_u32(data, at + 12)) {
            (Some(len), Some(offset)) => (len as usize, offset as usize),
            _ => {
                return Err("truncated ICONDIRENTRY".to_string());
            },
        };
        let entry = Entry { width, offset, len };
        assert(entry == record(data@, i as int));
        let replace = match found {
            None => true,
            Some(b) => {
                let d: u64 = abs_diff(width as u64, size as u64);
                let bd: u64 = abs_diff(b.width as u64, size as u64);
                d < bd || (d == bd && width > b.width)
            },
        };
        if replace {
            found = Some(entry);
            proof {
                k = i as int;
            }
        }
        i = i + 1;
    }
    match found {
        Some(e) => {
            assert(best(data@, size, k));
            Ok(e)
        },
        None => Err("ICO file has no images".to_string()),
    }
}

/// The distance between two numbers.
fn abs_diff(a: u64, b: u64) -> (d: u64)
    ensures
        d == (if a >= b {
            a - b
        } else {
            b - a
        }),
{
    if a >= b {
        a - b
    } else {
        b - a
    }
}

} // verus!
