use vstd::prelude::*;
use vstd::string::*;

verus! {

/// A moment in UTC, as the plain calendar and clock fields that the
/// upload path stamps storage file names with.
pub struct Timestamp {
    pub year: u16,
    pub month: u8,
    pub day: u8,
    pub hour: u8,
    pub minute: u8,
    pub second: u8,
}

impl Timestamp {
    /// A calendar moment the four-digit-year stamp can represent.
    pub open spec fn wf(self) -> bool {
        &&& self.year <= 9999
        &&& 1 <= self.month <= 12
        &&& 1 <= self.day <= 31
        &&& self.hour <= 23
        &&& self.minute <= 59
        &&& self.second <= 59
    }
}

/// The decimal digit character for `d` in 0..10.
pub open spec fn digit_char(d: int) -> char {
    (((48 + d) as u8) as char)
}

/// `n` in 0..100 as two decimal digits, zero-padded.
pub open spec fn two_digits(n: int) -> Seq<char> {
    seq![digit_char(n / 10), digit_char(n % 10)]
}

/// `n` in 0..10000 as four decimal digits, zero-padded.
pub open spec fn four_digits(n: int) -> Seq<char> {
    two_digits(n / 100) + two_digits(n % 100)
}

/// The timestamp format of uploaded file names:
/// year, month, day, 'T', hour, minute, second, 'Z', all zero-padded.
pub open spec fn spec_timestamp(t: Timestamp) -> Seq<char> {
    four_digits(t.year as int) + two_digits(t.month as int) + two_digits(t.day as int) + seq!['T']
        + two_digits(t.hour as int) + two_digits(t.minute as int) + two_digits(t.second as int)
        + seq!['Z']
}

/// Relies on String::push: appends exactly one character to the string.
#[verifier::external_body]
fn string_push(s: &mut String, c: char)
    ensures
        final(s)@ == old(s)@.push(c),
{
    s.push(c);
}

fn push_two_digits(s: &mut String, n: u32)
    requires
        n < 100,
    ensures
        final(s)@ == old(s)@ + two_digits(n as int),
{
    let hi = ((48 + n / 10) as u8) as char;
    let lo = ((48 + n % 10) as u8) as char;
    string_push(s, hi);
    string_push(s, lo);
    assert(s@ =~= old(s)@ + two_digits(n as int));
}

/// Format a UTC moment as the upload stamp, for example
/// 19700101T000000Z for the epoch.
pub fn format_timestamp(t: &Timestamp) -> (r: String)
    requires
        t.wf(),
    ensures
        r@ == spec_timestamp(*t),
{
    let mut s = String::new();
    push_two_digits(&mut s, (t.year / 100) as u32);
    push_two_digits(&mut s, (t.year % 100) as u32);
    push_two_digits(&mut s, t.month as u32);
    push_two_digits(&mut s, t.day as u32);
    string_push(&mut s, 'T');
    push_two_digits(&mut s, t.hour as u32);
    push_two_digits(&mut s, t.minute as u32);
    push_two_digits(&mut s, t.second as u32);
    string_push(&mut s, 'Z');
    assert(s@ =~= spec_timestamp(*t));
    s
}

/// The storage file name for an upload: the timestamp, then '_' and the
/// client's own file name when the upload carried one.  The stamp in
/// front keeps repeated uploads of one file name from colliding.
pub fn upload_file_name(t: &Timestamp, original: Option<&str>) -> (r: String)
    requires
        t.wf(),
    ensures
        r@ == match original {
            Some(name) => spec_timestamp(*t) + seq!['_'] + name@,
            None => spec_timestamp(*t),
        },
{
    let mut s = format_timestamp(t);
    match original {
        Some(name) => {
            string_push(&mut s, '_');
            s.append(name);
            assert(s@ =~= spec_timestamp(*t) + seq!['_'] + name@);
            s
        },
        None => s,
    }
}

} // verus!
