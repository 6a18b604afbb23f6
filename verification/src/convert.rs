//! Decoded images, their EXIF metadata, and the plan for encoding them in
//! each output format.
use vstd::prelude::*;

verus! {

/// The number of bytes per pixel: RGBA when the image has an alpha channel,
/// RGB otherwise.
pub open spec fn channels(has_alpha: bool) -> nat {
    if has_alpha { 4 } else { 3 }
}

/// An 8-bit RGB or RGBA image, rows stored top to bottom without padding.
#[derive(Debug)]
pub struct Picture {
    pub width: u32,
    pub height: u32,
    pub has_alpha: bool,
    pub pixels: Vec<u8>,
}

impl Picture {
    /// The pixel buffer holds exactly one value per channel and pixel.
    pub open spec fn wf(&self) -> bool {
        self.pixels@.len() == self.width as nat * self.height as nat * channels(self.has_alpha)
    }
}

/// The rows of an interleaved plane, `row_len` bytes each, the first bytes
/// of every `stride`, concatenated.
pub open spec fn packed_rows(data: Seq<u8>, row_len: nat, stride: nat, rows: nat) -> Seq<u8>
    decreases rows,
{
    if rows == 0 {
        Seq::empty()
    } else {
        let start = (rows - 1) * stride;
        packed_rows(data, row_len, stride, (rows - 1) as nat) + data.subrange(
            start as int,
            start + row_len,
        )
    }
}

proof fn lemma_packed_rows_len(data: Seq<u8>, row_len: nat, stride: nat, rows: nat)
    requires
        rows == 0 || (rows - 1) * stride + row_len <= data.len(),
    ensures
        packed_rows(data, row_len, stride, rows).len() == rows * row_len,
    decreases rows,
{
    if rows > 0 {
        if rows > 1 {
            assert((rows - 2) * stride + row_len <= (rows - 1) * stride + row_len) by (nonlinear_arith)
                requires
                    rows >= 2,
            ;
        }
        lemma_packed_rows_len(data, row_len, stride, (rows - 1) as nat);
        assert(rows * row_len == (rows - 1) * row_len + row_len) by (nonlinear_arith);
    }
}

/// Copies the rows of an interleaved plane into a buffer without padding.
pub fn pack_rows(data: &[u8], row_len: usize, stride: usize, rows: usize) -> (pixels: Vec<u8>)
    requires
        rows == 0 || (rows - 1) * stride + row_len <= data@.len(),
    ensures
        pixels@ == packed_rows(data@, row_len as nat, stride as nat, rows as nat),
{
    let mut pixels: Vec<u8> = Vec::new();
    let dlen = data.len();
    let mut r: usize = 0;
    while r < rows
        invariant
            dlen == data@.len(),
            r <= rows,
            rows == 0 || (rows - 1) * stride + row_len <= data@.len(),
            pixels@ == packed_rows(data@, row_len as nat, stride as nat, r as nat),
        decreases rows - r,
    {
        assert(r * stride <= (rows - 1) * stride) by (nonlinear_arith)
            requires
                r < rows,
        ;
        let start = r * stride;
        let ghost before = pixels@;
        let mut k: usize = 0;
        while k < row_len
            invariant
                k <= row_len,
                r < rows,
                dlen == data@.len(),
                start == r * stride,
                start + row_len <= data@.len(),
                pixels@ == before + data@.subrange(start as int, start + k),
            decreases row_len - k,
        {
            pixels.push(data[start + k]);
            assert(data@.subrange(start as int, start + k + 1) =~= data@.subrange(
                start as int,
                start + k,
            ).push(data@[start + k]));
            k = k + 1;
        }
        assert(pixels@ =~= packed_rows(data@, row_len as nat, stride as nat, (r + 1) as nat));
        r = r + 1;
    }
    pixels
}

/// Builds the picture decoded from an interleaved RGB or RGBA plane of the
/// given size, whose rows begin every `stride` bytes.
pub fn decoded_picture(data: &[u8], width: u32, height: u32, stride: usize, has_alpha: bool) -> (pic:
    Picture)
    requires
        width as nat * channels(has_alpha) <= usize::MAX,
        height == 0 || (height - 1) * stride + width * channels(has_alpha) <= data@.len(),
    ensures
        pic.wf(),
        pic.width == width,
        pic.height == height,
        pic.has_alpha == has_alpha,
        pic.pixels@ == packed_rows(
            data@,
            width as nat * channels(has_alpha),
            stride as nat,
            height as nat,
        ),
{
    let channel_count: usize = if has_alpha { 4 } else { 3 };
    let row_len = width as usize * channel_count;
    let pixels = pack_rows(data, row_len, stride, height as usize);
    proof {
        lemma_packed_rows_len(data@, row_len as nat, stride as nat, height as nat);
        assert(height as nat * row_len as nat == width as nat * height as nat * channels(has_alpha))
            by (nonlinear_arith)
            requires
                row_len as nat == width as nat * channels(has_alpha),
        ;
    }
    Picture { width, height, has_alpha, pixels }
}

/// The big-endian number in four bytes.
pub open spec fn be_u32(b0: u8, b1: u8, b2: u8, b3: u8) -> nat {
    b0 as nat * 16777216 + b1 as nat * 65536 + b2 as nat * 256 + b3 as nat
}

/// The EXIF payload of a HEIF `Exif` item: the item begins with the
/// big-endian offset of the TIFF header counted from the end of those four
/// bytes; the payload is everything from the header on, and there is none
/// when the item is shorter than four bytes or the header lies at or past
/// its end.
pub open spec fn exif_payload(raw: Seq<u8>) -> Option<Seq<u8>> {
    if raw.len() < 4 {
        None
    } else {
        let start = 4 + be_u32(raw[0], raw[1], raw[2], raw[3]);
        if start >= raw.len() {
            None
        } else {
            Some(raw.skip(start as int))
        }
    }
}

/// Extracts the EXIF payload of a HEIF `Exif` item.
pub fn exif_payload_of(raw: &[u8]) -> (payload: Option<Vec<u8>>)
    ensures
        match payload {
            Some(p) => exif_payload(raw@) == Some(p@),
            None => exif_payload(raw@) is None,
        },
{
    let n = raw.len();
    if n < 4 {
        return None;
    }
    let offset: u64 = raw[0] as u64 * 16777216 + raw[1] as u64 * 65536 + raw[2] as u64 * 256
        + raw[3] as u64;
    let start: u64 = 4 + offset;
    if start >= n as u64 {
        return None;
    }
    let start = start as usize;
    let mut payload: Vec<u8> = Vec::new();
    let mut i: usize = start;
    while i < n
        invariant
            n == raw@.len(),
            start <= i <= n,
            payload@ == raw@.subrange(start as int, i as int),
        decreases n - i,
    {
        payload.push(raw[i]);
        assert(raw@.subrange(start as int, i + 1) =~= raw@.subrange(start as int, i as int).push(
            raw@[i as int],
        ));
        i = i + 1;
    }
    assert(raw@.subrange(start as int, n as int) =~= raw@.skip(start as int));
    Some(payload)
}

/// One metadata item of a HEIF image: its four-character type and its
/// bytes.
#[derive(Debug)]
pub struct MetadataItem {
    pub item_type: String,
    pub raw_data: Vec<u8>,
}

/// The EXIF payload of an image with the given metadata items: that of the
/// first item of type `Exif`; none when there is no such item, or when the
/// first one holds none.
pub open spec fn exif_of_items(types: Seq<Seq<char>>, datas: Seq<Seq<u8>>) -> Option<Seq<u8>>
    decreases types.len(),
{
    if types.len() == 0 {
        None
    } else if types[0] == "Exif"@ {
        exif_payload(datas[0])
    } else {
        exif_of_items(types.drop_first(), datas.drop_first())
    }
}

/// The types of metadata items.
pub open spec fn item_types(items: Seq<MetadataItem>) -> Seq<Seq<char>> {
    items.map_values(|m: MetadataItem| m.item_type@)
}

/// The bytes of metadata items.
pub open spec fn item_datas(items: Seq<MetadataItem>) -> Seq<Seq<u8>> {
    items.map_values(|m: MetadataItem| m.raw_data@)
}

/// Finds the EXIF payload among the metadata items of an image.
pub fn exif_of(items: &[MetadataItem]) -> (payload: Option<Vec<u8>>)
    ensures
        match payload {
            Some(p) => exif_of_items(item_types(items@), item_datas(items@)) == Some(p@),
            None => exif_of_items(item_types(items@), item_datas(items@)) is None,
        },
{
    let n = items.len();
    let mut i: usize = 0;
    assert(item_types(items@).skip(0) =~= item_types(items@));
    assert(item_datas(items@).skip(0) =~= item_datas(items@));
    while i < n
        invariant
            n == items@.len(),
            i <= n,
            exif_of_items(item_types(items@), item_datas(items@)) == exif_of_items(
                item_types(items@).skip(i as int),
                item_datas(items@).skip(i as int),
            ),
        decreases n - i,
    {
        let ghost ts = item_types(items@).skip(i as int);
        let ghost ds = item_datas(items@).skip(i as int);
        assert(ts[0] == items@[i as int].item_type@);
        assert(ds[0] == items@[i as int].raw_data@);
        if crate::text::str_eq(items[i].item_type.as_str(), "Exif") {
            return exif_payload_of(items[i].raw_data.as_slice());
        }
        assert(ts.drop_first() =~= item_types(items@).skip(i + 1));
        assert(ds.drop_first() =~= item_datas(items@).skip(i + 1));
        i = i + 1;
    }
    None
}

/// The EXIF payload of an `Exif` item is everything after its four-byte
/// big-endian offset field and the offset it gives, whatever those bytes
/// hold; an item too short for that has none.  A payload is always a
/// proper suffix of its item.
pub proof fn lemma_exif_payload_follows_offset(raw: Seq<u8>)
    ensures
        raw.len() < 4 ==> exif_payload(raw) is None,
        raw.len() >= 4 ==> ({
            let start = 4 + raw[0] as nat * 16777216 + raw[1] as nat * 65536 + raw[2] as nat * 256
                + raw[3] as nat;
            &&& start < raw.len() ==> exif_payload(raw) == Some(raw.skip(start as int))
            &&& start >= raw.len() ==> exif_payload(raw) is None
        }),
        exif_payload(raw) matches Some(p) ==> p.len() < raw.len() && raw.skip(raw.len() - p.len()) == p,
{
}

/// The EXIF payload of an image is that of its first `Exif` item, whatever
/// items come before or after it; an image without one has none.
pub proof fn lemma_first_exif_item_wins(types: Seq<Seq<char>>, datas: Seq<Seq<u8>>, k: int)
    requires
        types.len() == datas.len(),
    ensures
        0 <= k < types.len() && types[k] == "Exif"@ && (forall|j: int| 0 <= j < k ==> #[trigger] types[j]
            != "Exif"@) ==> exif_of_items(types, datas) == exif_payload(datas[k]),
        (forall|j: int| 0 <= j < types.len() ==> #[trigger] types[j] != "Exif"@) ==> exif_of_items(
            types,
            datas,
        ) is None,
    decreases types.len(),
{
    if types.len() > 0 {
        let t = types.drop_first();
        let d = datas.drop_first();
        lemma_first_exif_item_wins(t, d, k - 1);
        if 0 < k < types.len() && types[k] == "Exif"@ && (forall|j: int| 0 <= j < k ==> #[trigger] types[j]
            != "Exif"@) {
            assert(types[0] != "Exif"@);
            assert(t[k - 1] == types[k]);
            assert forall|j: int| 0 <= j < k - 1 implies #[trigger] t[j] != "Exif"@ by {
                assert(t[j] == types[j + 1]);
            }
        }
        if forall|j: int| 0 <= j < types.len() ==> #[trigger] types[j] != "Exif"@ {
            assert(types[0] != "Exif"@);
            assert forall|j: int| 0 <= j < t.len() implies #[trigger] t[j] != "Exif"@ by {
                assert(t[j] == types[j + 1]);
            }
        }
    }
}

} // verus!
