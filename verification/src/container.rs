//! The backing container: a growable run of bytes that is read and written at
//! byte positions.
//!
//! A write past the end of the container grows it, and the gap between the old
//! end and the position written to is filled with zero bytes.

use vstd::prelude::*;

verus! {

/// `n` zero bytes.
pub open spec fn zeros(n: nat) -> Seq<u8> {
    Seq::new(n, |i: int| 0u8)
}

/// `data` followed by as many zero bytes as it takes to fill `width` bytes.
pub open spec fn padded(data: Seq<u8>, width: int) -> Seq<u8> {
    data + zeros((width - data.len()) as nat)
}

/// `bytes` without the zero bytes at its end.
pub open spec fn trimmed(bytes: Seq<u8>) -> Seq<u8>
    decreases bytes.len(),
{
    if bytes.len() > 0 && bytes.last() == 0 {
        trimmed(bytes.drop_last())
    } else {
        bytes
    }
}

/// The container's bytes after `chunk` was written at position `offset`.
/// Writing no bytes changes nothing.
pub open spec fn overwrite(bytes: Seq<u8>, offset: int, chunk: Seq<u8>) -> Seq<u8> {
    if chunk.len() == 0 {
        bytes
    } else {
        Seq::new(
            if bytes.len() >= offset + chunk.len() {
                bytes.len()
            } else {
                (offset + chunk.len()) as nat
            },
            |i: int|
                if offset <= i < offset + chunk.len() {
                    chunk[i - offset]
                } else if i < bytes.len() {
                    bytes[i]
                } else {
                    0u8
                },
        )
    }
}

/// The `length` bytes stored from position `offset` on, if the container holds
/// that many there. A span of no bytes can be read at any position.
pub open spec fn span(bytes: Seq<u8>, offset: int, length: int) -> Option<Seq<u8>> {
    if length == 0 {
        Some(Seq::empty())
    } else if offset + length <= bytes.len() {
        Some(bytes.subrange(offset, offset + length))
    } else {
        None
    }
}

/// Trimming never lengthens, and what it returns is a prefix of its argument
/// that does not end in a zero byte.
pub proof fn trimmed_is_prefix(bytes: Seq<u8>)
    ensures
        trimmed(bytes).len() <= bytes.len(),
        trimmed(bytes) == bytes.subrange(0, trimmed(bytes).len() as int),
        trimmed(bytes).len() > 0 ==> trimmed(bytes).last() != 0,
        forall|i: int| trimmed(bytes).len() <= i < bytes.len() ==> bytes[i] == 0,
    decreases bytes.len(),
{
    if bytes.len() > 0 && bytes.last() == 0 {
        let shorter = bytes.drop_last();
        trimmed_is_prefix(shorter);
        assert forall|i: int| trimmed(bytes).len() <= i < bytes.len() implies bytes[i] == 0 by {
            if i < shorter.len() {
                assert(shorter[i] == bytes[i]);
            }
        }
    }
}

/// Padding a payload with zero bytes and trimming it again gives the payload
/// back exactly when the payload does not itself end in a zero byte.
pub proof fn trimmed_padded(data: Seq<u8>, width: int)
    requires
        data.len() <= width,
    ensures
        trimmed(padded(data, width)) == trimmed(data),
        (data.len() == 0 || data.last() != 0) <==> trimmed(padded(data, width)) == data,
    decreases width - data.len(),
{
    if data.len() < width {
        assert(padded(data, width).drop_last() =~= padded(data, width - 1));
        trimmed_padded(data, width - 1);
    }
    trimmed_is_prefix(data);
}

/// Writes `data`, followed by zero bytes up to `width` bytes in all, at
/// position `offset`, growing the container where it is too short.
pub(crate) fn write_padded(file: &mut Vec<u8>, offset: usize, data: &[u8], width: usize)
    requires
        data@.len() <= width,
        offset + width <= usize::MAX,
    ensures
        final(file)@ == overwrite(old(file)@, offset as int, padded(data@, width as int)),
{
    if width == 0 {
        return ;
    }
    let end: usize = offset + width;
    if file.len() < end {
        file.resize(end, 0u8);
    }
    let ghost chunk = padded(data@, width as int);
    let ghost grown = file@;
    let n: usize = data.len();
    let mut i: usize = 0;
    while i < width
        invariant
            i <= width,
            n == data@.len(),
            n <= width,
            end == offset + width,
            chunk == padded(data@, width as int),
            file@.len() == grown.len(),
            grown.len() >= end,
            forall|j: int|
                0 <= j < file@.len() ==> file@[j] == if offset <= j < offset + i {
                    chunk[j - offset]
                } else {
                    grown[j]
                },
        decreases width - i,
    {
        let byte: u8 = if i < n {
            data[i]
        } else {
            0u8
        };
        file[offset + i] = byte;
        i += 1;
    }
}

/// Reads `length` bytes from position `offset`; `None` where the container
/// holds fewer bytes there.
pub(crate) fn read_span(file: &Vec<u8>, offset: usize, length: usize) -> (bytes: Option<Vec<u8>>)
    ensures
        match bytes {
            Some(read) => span(file@, offset as int, length as int) == Some(read@),
            None => span(file@, offset as int, length as int) is None,
        },
{
    if length == 0 {
        return Some(Vec::new());
    }
    if offset > file.len() || length > file.len() - offset {
        return None;
    }
    let part = vstd::slice::slice_subrange(file.as_slice(), offset, offset + length);
    Some(vstd::slice::slice_to_vec(part))
}

/// Removes the zero bytes at the end of `bytes`.
pub(crate) fn trim_zeros(bytes: Vec<u8>) -> (kept: Vec<u8>)
    ensures
        kept@ == trimmed(bytes@),
{
    let mut kept = bytes;
    let mut n: usize = kept.len();
    assert(bytes@.subrange(0, n as int) =~= bytes@);
    while n > 0 && kept[n - 1] == 0
        invariant
            n <= kept@.len(),
            kept@ == bytes@,
            trimmed(bytes@) == trimmed(bytes@.subrange(0, n as int)),
        decreases n,
    {
        assert(bytes@.subrange(0, n as int).drop_last() =~= bytes@.subrange(0, n - 1));
        n -= 1;
    }
    kept.truncate(n);
    kept
}

} // verus!
