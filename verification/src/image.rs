//! The persisted contract image: optional code, data and metadata trees,
//! together with its byte form on disk. Loading accepts exactly the
//! canonical byte form, so a load followed by a save reproduces the file
//! byte for byte.

use vstd::prelude::*;
use crate::cell::{Cell, CellVal, empty_val, val_wf};
use crate::codec::{cell_bytes, encodes_at, parse_cell, serialize_cell};
use crate::HarnessError;

verus! {

/// A contract image as persisted: code, data and metadata trees, each
/// of which may be absent.
pub struct ContractImage {
    pub code: Option<Cell>,
    pub data: Option<Cell>,
    pub metadata: Option<Cell>,
}

/// The mathematical value of an optional tree.
pub open spec fn opt_view(o: Option<Cell>) -> Option<CellVal> {
    match o {
        Some(c) => Some(c@),
        None => None,
    }
}

/// Well-formedness of an optional tree.
pub open spec fn opt_cell_wf(o: Option<Cell>) -> bool {
    o matches Some(c) ==> val_wf(c@)
}

/// Byte form of an optional tree: nothing when absent.
pub open spec fn opt_cell_bytes(o: Option<Cell>) -> Seq<u8> {
    match o {
        Some(c) => cell_bytes(c@),
        None => Seq::empty(),
    }
}

/// Well-formedness of an image: every present tree is well formed.
pub open spec fn image_wf(img: ContractImage) -> bool {
    &&& opt_cell_wf(img.code)
    &&& opt_cell_wf(img.data)
    &&& opt_cell_wf(img.metadata)
}

/// The presence byte that leads the image's byte form.
pub open spec fn image_flags(img: ContractImage) -> u8 {
    ((if img.code is Some {
        1u8
    } else {
        0u8
    }) + (if img.data is Some {
        2u8
    } else {
        0u8
    }) + (if img.metadata is Some {
        4u8
    } else {
        0u8
    })) as u8
}

/// The byte form of an image: the presence byte, then the byte forms of
/// whichever of code, data and metadata are present, in that order.
pub open spec fn image_bytes(img: ContractImage) -> Seq<u8> {
    seq![image_flags(img)] + opt_cell_bytes(img.code) + opt_cell_bytes(img.data)
        + opt_cell_bytes(img.metadata)
}

/// Where each piece of an image's byte form stands: the presence byte
/// first, then the byte form of each present tree, in order.
proof fn lemma_image_bytes_layout(img: ContractImage, b: Seq<u8>)
    requires
        image_wf(img),
        image_bytes(img) == b,
    ensures
        b.len() == 1 + opt_cell_bytes(img.code).len() + opt_cell_bytes(img.data).len()
            + opt_cell_bytes(img.metadata).len(),
        b[0] == image_flags(img),
        img.code matches Some(c) ==> encodes_at(c@, b, 1),
        img.data matches Some(c) ==> encodes_at(c@, b, 1 + opt_cell_bytes(img.code).len() as int),
        img.metadata matches Some(c) ==> encodes_at(
            c@,
            b,
            1 + opt_cell_bytes(img.code).len() + opt_cell_bytes(img.data).len() as int,
        ),
{
    let cb = opt_cell_bytes(img.code);
    let db = opt_cell_bytes(img.data);
    let mb = opt_cell_bytes(img.metadata);
    let s1 = seq![image_flags(img)] + cb;
    let s2 = s1 + db;
    assert(b == s2 + mb);
    if let Some(c) = img.code {
        assert forall|i: int| 0 <= i < cb.len() implies b[1 + i] == cb[i] by {
            assert(b[1 + i] == s2[1 + i]);
            assert(s2[1 + i] == s1[1 + i]);
        }
        assert(cell_bytes(c@) =~= b.subrange(1, 1 + cb.len() as int));
    }
    if let Some(c) = img.data {
        assert forall|i: int| 0 <= i < db.len() implies b[1 + cb.len() + i] == db[i] by {
            assert(b[1 + cb.len() + i] == s2[1 + cb.len() + i]);
            assert(s2[1 + cb.len() + i] == db[i]);
        }
        assert(cell_bytes(c@) =~= b.subrange(
            1 + cb.len() as int,
            1 + cb.len() + db.len() as int,
        ));
    }
    if let Some(c) = img.metadata {
        assert forall|i: int| 0 <= i < mb.len() implies b[1 + cb.len() + db.len() + i]
            == mb[i] by {
            assert(b[1 + cb.len() + db.len() + i] == mb[i - mb.len() + mb.len()]);
        }
        assert(cell_bytes(c@) =~= b.subrange(
            1 + cb.len() + db.len() as int,
            1 + cb.len() + db.len() + mb.len() as int,
        ));
    }
}

/// No image's byte form is shorter than one byte or led by a presence
/// byte above seven.
proof fn lemma_not_image_header(b: Seq<u8>)
    requires
        b.len() < 1 || b[0] > 7,
    ensures
        forall|img2: ContractImage| image_wf(img2) ==> #[trigger] image_bytes(img2) != b,
{
    assert forall|img2: ContractImage| image_wf(img2) implies #[trigger] image_bytes(img2)
        != b by {
        if image_bytes(img2) == b {
            lemma_image_bytes_layout(img2, b);
        }
    }
}

/// When the presence byte announces a code tree and no well-formed cell
/// stands after it, no image's byte form is the string.
proof fn lemma_not_image_code_missing(b: Seq<u8>, flags: u8)
    requires
        b.len() >= 1,
        b[0] == flags,
        flags % 2 == 1,
        forall|v: CellVal| val_wf(v) ==> !#[trigger] encodes_at(v, b, 1),
    ensures
        forall|img2: ContractImage| image_wf(img2) ==> #[trigger] image_bytes(img2) != b,
{
    assert forall|img2: ContractImage| image_wf(img2) implies #[trigger] image_bytes(img2)
        != b by {
        if image_bytes(img2) == b {
            lemma_image_bytes_layout(img2, b);
            assert(image_flags(img2) == flags);
            assert(img2.code is Some);
        }
    }
}

/// When the presence byte announces a data tree and no well-formed cell
/// stands where the code section ends, no image's byte form is the string.
proof fn lemma_not_image_data_missing(b: Seq<u8>, flags: u8, cv: CellVal, code_end: int)
    requires
        b.len() >= 1,
        b[0] == flags,
        flags <= 7,
        (flags / 2) % 2 == 1,
        flags % 2 == 0 ==> code_end == 1,
        flags % 2 == 1 ==> forall|v: CellVal|
            val_wf(v) && #[trigger] encodes_at(v, b, 1) ==> v == cv && 1 + cell_bytes(v).len()
                == code_end,
        forall|v: CellVal| val_wf(v) ==> !#[trigger] encodes_at(v, b, code_end),
    ensures
        forall|img2: ContractImage| image_wf(img2) ==> #[trigger] image_bytes(img2) != b,
{
    assert forall|img2: ContractImage| image_wf(img2) implies #[trigger] image_bytes(img2)
        != b by {
        if image_bytes(img2) == b {
            lemma_image_bytes_layout(img2, b);
            assert(image_flags(img2) == flags);
            assert(img2.data is Some);
            assert(1 + opt_cell_bytes(img2.code).len() == code_end);
            assert(encodes_at(img2.data.unwrap()@, b, code_end));
        }
    }
}

/// When the presence byte announces a metadata tree and no well-formed
/// cell stands where the data section ends, no image's byte form is the
/// string.
proof fn lemma_not_image_metadata_missing(
    b: Seq<u8>,
    flags: u8,
    cv: CellVal,
    code_end: int,
    dv: CellVal,
    data_end: int,
)
    requires
        b.len() >= 1,
        b[0] == flags,
        flags <= 7,
        (flags / 4) % 2 == 1,
        flags % 2 == 0 ==> code_end == 1,
        flags % 2 == 1 ==> forall|v: CellVal|
            val_wf(v) && #[trigger] encodes_at(v, b, 1) ==> v == cv && 1 + cell_bytes(v).len()
                == code_end,
        (flags / 2) % 2 == 0 ==> data_end == code_end,
        (flags / 2) % 2 == 1 ==> forall|v: CellVal|
            val_wf(v) && #[trigger] encodes_at(v, b, code_end) ==> v == dv && code_end
                + cell_bytes(v).len() == data_end,
        forall|v: CellVal| val_wf(v) ==> !#[trigger] encodes_at(v, b, data_end),
    ensures
        forall|img2: ContractImage| image_wf(img2) ==> #[trigger] image_bytes(img2) != b,
{
    assert forall|img2: ContractImage| image_wf(img2) implies #[trigger] image_bytes(img2)
        != b by {
        if image_bytes(img2) == b {
            lemma_image_bytes_layout(img2, b);
            assert(image_flags(img2) == flags);
            assert(img2.metadata is Some);
            assert(1 + opt_cell_bytes(img2.code).len() == code_end);
            assert(code_end + opt_cell_bytes(img2.data).len() == data_end);
            assert(encodes_at(img2.metadata.unwrap()@, b, data_end));
        }
    }
}

/// When the three announced sections end short of the string's end, no
/// image's byte form is the string.
proof fn lemma_not_image_trailing(
    b: Seq<u8>,
    flags: u8,
    cv: CellVal,
    code_end: int,
    dv: CellVal,
    data_end: int,
    mv: CellVal,
    meta_end: int,
)
    requires
        b.len() >= 1,
        b[0] == flags,
        flags <= 7,
        flags % 2 == 0 ==> code_end == 1,
        flags % 2 == 1 ==> forall|v: CellVal|
            val_wf(v) && #[trigger] encodes_at(v, b, 1) ==> v == cv && 1 + cell_bytes(v).len()
                == code_end,
        (flags / 2) % 2 == 0 ==> data_end == code_end,
        (flags / 2) % 2 == 1 ==> forall|v: CellVal|
            val_wf(v) && #[trigger] encodes_at(v, b, code_end) ==> v == dv && code_end
                + cell_bytes(v).len() == data_end,
        (flags / 4) % 2 == 0 ==> meta_end == data_end,
        (flags / 4) % 2 == 1 ==> forall|v: CellVal|
            val_wf(v) && #[trigger] encodes_at(v, b, data_end) ==> v == mv && data_end
                + cell_bytes(v).len() == meta_end,
        meta_end != b.len(),
    ensures
        forall|img2: ContractImage| image_wf(img2) ==> #[trigger] image_bytes(img2) != b,
{
    assert forall|img2: ContractImage| image_wf(img2) implies #[trigger] image_bytes(img2)
        != b by {
        if image_bytes(img2) == b {
            lemma_image_bytes_layout(img2, b);
            assert(image_flags(img2) == flags);
            assert(1 + opt_cell_bytes(img2.code).len() == code_end);
            assert(code_end + opt_cell_bytes(img2.data).len() == data_end);
            assert(data_end + opt_cell_bytes(img2.metadata).len() == meta_end);
        }
    }
}

impl ContractImage {
    /// Replaces the persistent data tree and nothing else.
    pub fn set_data(&mut self, cell: Cell)
        ensures
            opt_view(final(self).data) == Some(cell@),
            final(self).code == old(self).code,
            final(self).metadata == old(self).metadata,
    {
        self.data = Some(cell);
    }
}

/// Serializes an image into its canonical byte form.
pub fn save_image(img: &ContractImage) -> (out: Vec<u8>)
    requires
        image_wf(*img),
    ensures
        out@ == image_bytes(*img),
{
    let mut flags: u8 = 0;
    if img.code.is_some() {
        flags += 1;
    }
    if img.data.is_some() {
        flags += 2;
    }
    if img.metadata.is_some() {
        flags += 4;
    }
    let mut out: Vec<u8> = Vec::new();
    out.push(flags);
    if let Some(c) = &img.code {
        serialize_cell(c, &mut out);
    }
    if let Some(c) = &img.data {
        serialize_cell(c, &mut out);
    }
    if let Some(c) = &img.metadata {
        serialize_cell(c, &mut out);
    }
    assert(out@ =~= image_bytes(*img));
    out
}

/// Decodes an image from its byte form. Whatever it accepts is well
/// formed and re-serializes to exactly the input, so loading and then
/// saving leaves the persisted file byte-identical; and whatever some
/// well-formed image serializes to it accepts, so a byte string is
/// rejected exactly when it is the byte form of no well-formed image.
pub fn load_image(bytes: &Vec<u8>) -> (r: Result<ContractImage, HarnessError>)
    ensures
        r matches Ok(img) ==> image_wf(img) && image_bytes(img) == bytes@,
        r is Err ==> r == Err::<ContractImage, HarnessError>(HarnessError::CorruptImage),
        r is Err ==> forall|img2: ContractImage|
            image_wf(img2) ==> #[trigger] image_bytes(img2) != bytes@,
{
    if bytes.len() < 1 {
        proof {
            lemma_not_image_header(bytes@);
        }
        return Err(HarnessError::CorruptImage);
    }
    let flags = bytes[0];
    if flags > 7 {
        proof {
            lemma_not_image_header(bytes@);
        }
        return Err(HarnessError::CorruptImage);
    }
    let mut pos: usize = 1;
    let ghost mut cv: CellVal = empty_val();
    let code: Option<Cell>;
    if flags % 2 == 1 {
        match parse_cell(bytes, pos) {
            None => {
                proof {
                    lemma_not_image_code_missing(bytes@, flags);
                }
                return Err(HarnessError::CorruptImage);
            },
            Some((c, end)) => {
                proof {
                    cv = c@;
                }
                pos = end;
                code = Some(c);
            },
        }
    } else {
        code = None;
    }
    let ghost code_end = pos as int;
    let ghost mut dv: CellVal = empty_val();
    let data: Option<Cell>;
    if (flags / 2) % 2 == 1 {
        match parse_cell(bytes, pos) {
            None => {
                proof {
                    lemma_not_image_data_missing(bytes@, flags, cv, code_end);
                }
                return Err(HarnessError::CorruptImage);
            },
            Some((c, end)) => {
                proof {
                    dv = c@;
                }
                pos = end;
                data = Some(c);
            },
        }
    } else {
        data = None;
    }
    let ghost data_end = pos as int;
    let ghost mut mv: CellVal = empty_val();
    let metadata: Option<Cell>;
    if (flags / 4) % 2 == 1 {
        match parse_cell(bytes, pos) {
            None => {
                proof {
                    lemma_not_image_metadata_missing(bytes@, flags, cv, code_end, dv, data_end);
                }
                return Err(HarnessError::CorruptImage);
            },
            Some((c, end)) => {
                proof {
                    mv = c@;
                }
                pos = end;
                metadata = Some(c);
            },
        }
    } else {
        metadata = None;
    }
    let ghost meta_end = pos as int;
    if pos != bytes.len() {
        proof {
            lemma_not_image_trailing(bytes@, flags, cv, code_end, dv, data_end, mv, meta_end);
        }
        return Err(HarnessError::CorruptImage);
    }
    let img = ContractImage { code, data, metadata };
    proof {
        assert(image_flags(img) == flags);
        assert(image_bytes(img) =~= bytes@);
    }
    Ok(img)
}

} // verus!
