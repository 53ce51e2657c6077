use vstd::prelude::*;
use vstd::layout::{size_of, align_of};
use crate::text_input::string_push;

verus! {

broadcast use vstd::layout::align_nonzero;

/// Possible errors when a byte slice is viewed as a slice of another type.
#[derive(Clone, Debug, PartialEq, Eq)]
pub enum Error {
    /// The slice's address is not a multiple of the output type's alignment.
    AlignmentMismatch { dst_type: &'static str, dst_minimum_alignment: usize },
    /// The slice's length is not a multiple of the output type's size.
    LengthMismatch { dst_type: &'static str, src_slice_size: usize, dst_type_size: usize },
}

/// The decimal digits.
pub open spec fn digits() -> Seq<char> {
    seq!['0', '1', '2', '3', '4', '5', '6', '7', '8', '9']
}

/// The decimal notation of `n`.
pub open spec fn decimal(n: nat) -> Seq<char>
    decreases n,
{
    if n < 10 {
        seq![digits()[n as int]]
    } else {
        decimal(n / 10).push(digits()[(n % 10) as int])
    }
}

fn digit_char(d: usize) -> (c: char)
    requires
        d < 10,
    ensures
        c == digits()[d as int],
{
    match d {
        0 => '0',
        1 => '1',
        2 => '2',
        3 => '3',
        4 => '4',
        5 => '5',
        6 => '6',
        7 => '7',
        8 => '8',
        _ => '9',
    }
}

/// The decimal notation of `n`, as `Display` writes it.
pub fn decimal_text(n: usize) -> (s: String)
    ensures
        s@ == decimal(n as nat),
{
    decimal_text_u64(n as u64)
}

/// The decimal notation of `n`, as `Display` writes it.
pub fn decimal_text_u64(n: u64) -> (s: String)
    ensures
        s@ == decimal(n as nat),
    decreases n,
{
    if n < 10 {
        let mut s = String::new();
        string_push(&mut s, digit_char(n as usize));
        proof {
            assert(s@ =~= seq![digits()[n as int]]);
        }
        s
    } else {
        let mut s = decimal_text_u64(n / 10);
        string_push(&mut s, digit_char((n % 10) as usize));
        s
    }
}

/// The message of an error, as its `Display` in `std` terms writes it.
pub open spec fn message_of(e: Error) -> Seq<char> {
    match e {
        Error::AlignmentMismatch { dst_type, dst_minimum_alignment } => "cannot cast a &[u8] into a &["@
            + dst_type@ + "]: the slice's address is not divisible by the minimum alignment ("@
            + decimal(dst_minimum_alignment as nat) + ") of "@ + dst_type@,
        Error::LengthMismatch { dst_type, src_slice_size, dst_type_size } =>
            "cannot cast a &[u8] into a &["@ + dst_type@ + "]: the size ("@ + decimal(
            src_slice_size as nat,
        ) + ") of the slice is not divisible by the size ("@ + decimal(dst_type_size as nat)
            + ") of "@ + dst_type@,
    }
}

impl Error {
    /// The message of the error.
    pub fn message(&self) -> (m: String)
        ensures
            m@ == message_of(*self),
    {
        let mut m = String::new();
        match self {
            Error::AlignmentMismatch { dst_type, dst_minimum_alignment } => {
                m.append("cannot cast a &[u8] into a &[");
                m.append(dst_type);
                m.append("]: the slice's address is not divisible by the minimum alignment (");
                m.append(decimal_text(*dst_minimum_alignment).as_str());
                m.append(") of ");
                m.append(dst_type);
            },
            Error::LengthMismatch { dst_type, src_slice_size, dst_type_size } => {
                m.append("cannot cast a &[u8] into a &[");
                m.append(dst_type);
                m.append("]: the size (");
                m.append(decimal_text(*src_slice_size).as_str());
                m.append(") of the slice is not divisible by the size (");
                m.append(decimal_text(*dst_type_size).as_str());
                m.append(") of ");
                m.append(dst_type);
            },
        }
        proof {
            assert(m@ =~= message_of(*self));
        }
        m
    }

    /// A short description of the kind of error.
    pub fn description(&self) -> (d: &'static str)
        ensures
            self is AlignmentMismatch ==> d@ == "Alignment Mismatch"@,
            self is LengthMismatch ==> d@ == "Length Mismatch"@,
    {
        match self {
            Error::AlignmentMismatch { .. } => "Alignment Mismatch",
            Error::LengthMismatch { .. } => "Length Mismatch",
        }
    }
}

/// Checks that a slice starting at address `addr` is aligned for `U`;
/// returns the alignment. `dst_type` names `U` in the error.
pub fn check_alignment<U>(addr: usize, dst_type: &'static str) -> (r: Result<usize, Error>)
    ensures
        r matches Ok(a) ==> a == align_of::<U>() && addr as nat % a as nat == 0,
        r matches Err(e) ==> addr as nat % align_of::<U>() != 0 && (e matches
            Error::AlignmentMismatch { dst_type: t, dst_minimum_alignment } && dst_minimum_alignment
            == align_of::<U>() && t == dst_type),
        r is Ok <==> addr as nat % align_of::<U>() == 0,
{
    let alignment = core::mem::align_of::<U>();
    if addr % alignment != 0 {
        let err = Error::AlignmentMismatch {
            dst_type,
            dst_minimum_alignment: alignment,
        };
        return Err(err);
    }
    Ok(alignment)
}

/// Checks that `data` holds a whole number of `U`s; returns the size of `U`.
pub fn check_length<U>(data: &[u8], dst_type: &'static str) -> (r: Result<usize, Error>)
    requires
        size_of::<U>() > 0,
    ensures
        r matches Ok(s) ==> s == size_of::<U>() && data@.len() % (s as nat) == 0,
        r matches Err(e) ==> (e matches Error::LengthMismatch {
            dst_type: t,
            src_slice_size,
            dst_type_size,
        } && src_slice_size == data@.len() && dst_type_size == size_of::<U>() && t == dst_type),
        r is Ok <==> data@.len() % size_of::<U>() == 0,
{
    let size_out = core::mem::size_of::<U>();
    if data.len() % size_out != 0 {
        let err = Error::LengthMismatch {
            dst_type,
            src_slice_size: data.len(),
            dst_type_size: size_out,
        };
        return Err(err);
    }
    Ok(size_out)
}

/// Checks that `data`, starting at address `addr`, can be viewed as a slice of
/// `U`s; returns their number. An empty slice always can.
pub fn check_constraints<U>(data: &[u8], addr: usize, dst_type: &'static str) -> (r: Result<usize, Error>)
    requires
        data@.len() > 0 ==> size_of::<U>() > 0,
    ensures
        data@.len() == 0 ==> r == Ok::<usize, Error>(0),
        data@.len() > 0 ==> {
            &&& r is Ok <==> (addr as nat % align_of::<U>() == 0 && data@.len() % size_of::<U>() == 0)
            &&& r matches Ok(n) ==> n == data@.len() / size_of::<U>()
            &&& (addr as nat % align_of::<U>() != 0 ==> (r matches Err(
                Error::AlignmentMismatch { dst_type: t, dst_minimum_alignment },
            ) && t == dst_type && dst_minimum_alignment == align_of::<U>()))
            &&& (addr as nat % align_of::<U>() == 0 && data@.len() % size_of::<U>() != 0 ==> (
            r matches Err(Error::LengthMismatch { dst_type: t, src_slice_size, dst_type_size })
                && t == dst_type && src_slice_size == data@.len() && dst_type_size == size_of::<
                U,
            >()))
        },
{
    if data.len() == 0 {
        return Ok(0);
    }
    check_alignment::<U>(addr, dst_type)?;
    let size_out = check_length::<U>(data, dst_type)?;
    Ok(data.len() / size_out)
}

} // verus!
