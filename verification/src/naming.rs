use vstd::prelude::*;

verus! {

/// The ASCII decimal form of `n`, most significant digit first, zero-padded
/// on the left to at least `min` digits.
pub open spec fn dec_bytes(n: int, min: int) -> Seq<u8>
    decreases n + min,
    when 0 <= n && 0 <= min
{
    let rest_min = if min <= 1 {
        0
    } else {
        min - 1
    };
    if n < 10 && min <= 1 {
        seq![(48 + n) as u8]
    } else {
        dec_bytes(n / 10, rest_min).push((48 + n % 10) as u8)
    }
}

/// The bytes of an output filename: the file index and the piece index,
/// each zero-padded to two digits, joined by a dash, then a dot and the
/// extension — `ff-pp.ext`, growing wider once an index passes 99.
pub open spec fn name_bytes(file_no: int, piece_no: int, ext: Seq<u8>) -> Seq<u8> {
    dec_bytes(file_no, 2) + seq![45u8] + dec_bytes(piece_no, 2) + seq![46u8] + ext
}

/// The ASCII decimal form of `n`, zero-padded to at least `min_len` digits.
pub fn decimal_padded(n: u32, min_len: usize) -> (out: Vec<u8>)
    ensures
        out@ == dec_bytes(n as int, min_len as int),
    decreases n + min_len,
{
    let rest_min: usize = if min_len <= 1 {
        0
    } else {
        min_len - 1
    };
    if n < 10 && min_len <= 1 {
        let mut v: Vec<u8> = Vec::new();
        v.push(48 + (n as u8));
        proof {
            assert(v@ =~= dec_bytes(n as int, min_len as int));
        }
        v
    } else {
        let mut v = decimal_padded(n / 10, rest_min);
        v.push(48 + ((n % 10) as u8));
        v
    }
}

/// The filename of one output piece, exactly as `name_bytes` states it.
pub fn output_name(file_no: u32, piece_no: u32, ext: &[u8]) -> (out: Vec<u8>)
    ensures
        out@ == name_bytes(file_no as int, piece_no as int, ext@),
{
    let mut v = decimal_padded(file_no, 2);
    v.push(45);
    let p = decimal_padded(piece_no, 2);
    let mut i: usize = 0;
    while i < p.len()
        invariant
            i <= p@.len(),
            v@ == dec_bytes(file_no as int, 2) + seq![45u8] + p@.subrange(0, i as int),
        decreases p@.len() - i,
    {
        let b = p[i];
        v.push(b);
        i = i + 1;
        proof {
            assert(v@ =~= dec_bytes(file_no as int, 2) + seq![45u8] + p@.subrange(0, i as int));
        }
    }
    v.push(46);
    let mut j: usize = 0;
    while j < ext.len()
        invariant
            j <= ext@.len(),
            v@ == dec_bytes(file_no as int, 2) + seq![45u8] + dec_bytes(piece_no as int, 2)
                + seq![46u8] + ext@.subrange(0, j as int),
        decreases ext@.len() - j,
    {
        let b = ext[j];
        v.push(b);
        j = j + 1;
        proof {
            assert(v@ =~= dec_bytes(file_no as int, 2) + seq![45u8] + dec_bytes(piece_no as int, 2)
                + seq![46u8] + ext@.subrange(0, j as int));
        }
    }
    proof {
        assert(p@.subrange(0, p@.len() as int) =~= p@);
        assert(ext@.subrange(0, ext@.len() as int) =~= ext@);
        assert(v@ =~= name_bytes(file_no as int, piece_no as int, ext@));
    }
    v
}

} // verus!
