//! Screenshots: rows as the GPU hands them over, pixels as an image file has
//! them, and names after the time of day.

use super::frame_stats::nanos_of;
use crate::calendar::{civil_from_days, is_date_of};
use crate::digits::{
    law_padded_numbers_read_back, law_small_numbers_are_short, push_zero_padded, value_of,
    zero_padded,
};
use std::time::{Duration, SystemTime};
use vstd::prelude::*;

verus! {

/// Rows in a buffer start at multiples of this many bytes.
pub const ROW_STRIDE_ALIGNMENT: u32 = 256;

pub const BYTES_PER_PIXEL: u32 = 4;

/// `value` rounded up to a multiple of `alignment`.
pub open spec fn aligned_up(value: int, alignment: int) -> int {
    if value % alignment == 0 {
        value
    } else {
        value + alignment - value % alignment
    }
}

/// Rounding up gives the least multiple that is not under the value.
pub proof fn law_aligned_up_is_least(value: int, alignment: int, multiple: int)
    requires
        alignment > 0,
        value <= multiple,
        multiple % alignment == 0,
    ensures
        aligned_up(value, alignment) % alignment == 0,
        value <= aligned_up(value, alignment) <= multiple,
{
    let (v, a, m) = (value, alignment, multiple);
    vstd::arithmetic::div_mod::lemma_fundamental_div_mod(v, a);
    vstd::arithmetic::div_mod::lemma_fundamental_div_mod(m, a);
    let (q, p) = (v / a, m / a);
    if v % a != 0 {
        assert(a * (q + 1) == a * q + a) by (nonlinear_arith);
        vstd::arithmetic::div_mod::lemma_fundamental_div_mod_converse(
            aligned_up(v, a),
            a,
            q + 1,
            0,
        );
        assert(p > q) by (nonlinear_arith)
            requires
                a * p >= v,
                v == a * q + v % a,
                v % a > 0,
                a > 0,
        ;
        assert(m >= a * (q + 1)) by (nonlinear_arith)
            requires
                p >= q + 1,
                m == a * p,
                a > 0,
        ;
    }
}

/// `value` rounded up to a multiple of `alignment`.
pub fn align_up(value: u32, alignment: u32) -> (r: u32)
    requires
        alignment > 0,
        aligned_up(value as int, alignment as int) <= u32::MAX,
    ensures
        r == aligned_up(value as int, alignment as int),
{
    let rest: u32 = value % alignment;
    if rest == 0 {
        value
    } else {
        value + (alignment - rest)
    }
}

/// Whether the colours of a surface are stored with red or with blue first.
#[derive(Debug, Clone, Copy, PartialEq, Eq, Structural)]
pub enum ChannelOrder {
    Rgba,
    Bgra,
}

/// A copy of a surface into a buffer.
#[derive(Debug, Clone, Copy, PartialEq, Eq, Structural)]
pub struct CopyPlan {
    pub width: u32,
    pub height: u32,
    pub padded_bytes_per_row: u32,
    pub order: ChannelOrder,
}

impl CopyPlan {
    /// Rows are long enough for their pixels, and start at multiples of the
    /// alignment.
    pub open spec fn wf(self) -> bool {
        self.padded_bytes_per_row == aligned_up(
            self.width * BYTES_PER_PIXEL,
            ROW_STRIDE_ALIGNMENT as int,
        )
    }

    /// The copy of a surface of the given size.
    pub fn new(width: u32, height: u32, order: ChannelOrder) -> (r: Self)
        requires
            aligned_up(width * BYTES_PER_PIXEL, ROW_STRIDE_ALIGNMENT as int) <= u32::MAX,
        ensures
            r.wf(),
            r.width == width && r.height == height && r.order == order,
    {
        let padded_bytes_per_row = align_up(width * BYTES_PER_PIXEL, ROW_STRIDE_ALIGNMENT);
        CopyPlan { width, height, padded_bytes_per_row, order }
    }

    /// The bytes of the buffer.
    pub open spec fn spec_buffer_size(self) -> int {
        self.padded_bytes_per_row * self.height
    }

    /// The bytes of the buffer.
    pub fn buffer_size(&self) -> (r: u64)
        ensures
            r == self.spec_buffer_size(),
    {
        proof {
            assert(self.padded_bytes_per_row * self.height <= 0xffff_ffff * 0xffff_ffff)
                by (nonlinear_arith)
                requires
                    self.padded_bytes_per_row <= 0xffff_ffff,
                    self.height <= 0xffff_ffff,
            ;
        }
        self.padded_bytes_per_row as u64 * self.height as u64
    }

    /// Where in the buffer a channel of a pixel stands, red first.
    pub open spec fn source(self, row: int, column: int, channel: int) -> int {
        let stored = if self.order == ChannelOrder::Bgra && channel == 0 {
            2
        } else if self.order == ChannelOrder::Bgra && channel == 2 {
            0
        } else {
            channel
        };
        row * self.padded_bytes_per_row + column * BYTES_PER_PIXEL + stored
    }

    /// The pixels of the first `rows` rows, row by row without padding, red
    /// first.
    pub open spec fn pixels_of_rows(self, buffer: Seq<u8>, rows: nat) -> Seq<u8>
        decreases rows,
    {
        if rows == 0 {
            Seq::empty()
        } else {
            self.pixels_of_rows(buffer, (rows - 1) as nat) + self.row(buffer, rows - 1)
        }
    }

    /// The pixels of a row, red first.
    pub open spec fn row(self, buffer: Seq<u8>, row: int) -> Seq<u8> {
        Seq::new(
            (self.width * BYTES_PER_PIXEL) as nat,
            |k: int| buffer[self.source(row, k / 4, k % 4)],
        )
    }

    /// The pixels of the surface, row by row without padding, red first.
    pub fn pixels(&self, buffer: &[u8]) -> (r: Vec<u8>)
        requires
            self.wf(),
            buffer@.len() == self.spec_buffer_size(),
        ensures
            r@ == self.pixels_of_rows(buffer@, self.height as nat),
    {
        let length = buffer.len();
        let mut out: Vec<u8> = Vec::new();
        let mut start: usize = 0;
        let mut row: u32 = 0;
        while row < self.height
            invariant
                self.wf(),
                length == buffer@.len(),
                buffer@.len() == self.spec_buffer_size(),
                row <= self.height,
                start == row * self.padded_bytes_per_row,
                out@ == self.pixels_of_rows(buffer@, row as nat),
            decreases self.height - row,
        {
            proof {
                assert((row + 1) * self.padded_bytes_per_row <= self.height
                    * self.padded_bytes_per_row) by (nonlinear_arith)
                    requires
                        row + 1 <= self.height,
                ;
                assert((row + 1) * self.padded_bytes_per_row == row * self.padded_bytes_per_row
                    + self.padded_bytes_per_row) by (nonlinear_arith);
                assert(self.height * self.padded_bytes_per_row == self.padded_bytes_per_row
                    * self.height) by (nonlinear_arith);
            }
            let ghost before = out@;
            let mut column: u32 = 0;
            while column < self.width
                invariant
                    self.wf(),
                    length == buffer@.len(),
                    start == row * self.padded_bytes_per_row,
                    start + self.padded_bytes_per_row <= buffer@.len(),
                    column <= self.width,
                    out@.len() == before.len() + 4 * column,
                    out@.take(before.len() as int) == before,
                    forall|k: int|
                        0 <= k < 4 * column ==> #[trigger] out@[before.len() + k] == buffer@[
                            self.source(row as int, k / 4, k % 4)
                        ],
                decreases self.width - column,
            {
                let at: usize = start + column as usize * 4;
                let ghost earlier = out@;
                if self.order == ChannelOrder::Bgra {
                    out.push(buffer[at + 2]);
                    out.push(buffer[at + 1]);
                    out.push(buffer[at]);
                } else {
                    out.push(buffer[at]);
                    out.push(buffer[at + 1]);
                    out.push(buffer[at + 2]);
                }
                out.push(buffer[at + 3]);
                proof {
                    assert(out@.take(before.len() as int) =~= before);
                    assert forall|k: int| 0 <= k < 4 * (column + 1) implies #[trigger] out@[
                        before.len() + k
                    ] == buffer@[self.source(row as int, k / 4, k % 4)] by {
                        if k < 4 * column {
                            assert(out@[before.len() + k] == earlier[before.len() + k]);
                        } else {
                            assert(k / 4 == column as int);
                        }
                    }
                }
                column += 1;
            }
            proof {
                let whole = before + self.row(buffer@, row as int);
                assert(out@.len() == whole.len());
                assert forall|i: int| 0 <= i < whole.len() implies #[trigger] out@[i]
                    == whole[i] by {
                    if i < before.len() {
                        assert(out@[i] == out@.take(before.len() as int)[i]);
                    } else {
                        let k = i - before.len();
                        assert(out@[before.len() + k] == buffer@[
                            self.source(row as int, k / 4, k % 4)
                        ]);
                    }
                }
                assert(out@ =~= whole);
            }
            start = start + self.padded_bytes_per_row as usize;
            row += 1;
        }
        out
    }
}

proof fn lemma_rows(plan: CopyPlan, buffer: Seq<u8>, rows: nat)
    ensures
        plan.pixels_of_rows(buffer, rows).len() == rows * (plan.width * BYTES_PER_PIXEL),
        forall|row: int, k: int|
            0 <= row < rows && 0 <= k < plan.width * BYTES_PER_PIXEL
                ==> plan.pixels_of_rows(buffer, rows)[#[trigger] pixel_at(plan, row, k)]
                == buffer[plan.source(row, k / 4, k % 4)],
    decreases rows,
{
    let wide = (plan.width * BYTES_PER_PIXEL) as int;
    if rows > 0 {
        let less = (rows - 1) as nat;
        lemma_rows(plan, buffer, less);
        assert(rows * wide == less * wide + wide) by (nonlinear_arith)
            requires
                rows == less + 1,
        ;
        assert forall|row: int, k: int| 0 <= row < rows && 0 <= k < wide implies
            plan.pixels_of_rows(buffer, rows)[#[trigger] pixel_at(plan, row, k)]
            == buffer[plan.source(row, k / 4, k % 4)] by {
            let at = pixel_at(plan, row, k);
            if row < less {
                assert(row * wide + wide <= less * wide) by (nonlinear_arith)
                    requires
                        row + 1 <= less,
                        wide >= 0,
                ;
                assert(row * wide >= 0) by (nonlinear_arith)
                    requires
                        row >= 0,
                        wide >= 0,
                ;
                assert(plan.pixels_of_rows(buffer, rows)[at] == plan.pixels_of_rows(
                    buffer,
                    less,
                )[at]);
            } else {
                assert(row == less);
                assert(plan.pixels_of_rows(buffer, rows)[at] == plan.row(buffer, row)[k]);
            }
        }
    } else {
        assert(rows * wide == 0) by (nonlinear_arith)
            requires
                rows == 0,
        ;
    }
}

/// Where in an image without padding the byte `k` of a row stands.
pub open spec fn pixel_at(plan: CopyPlan, row: int, k: int) -> int {
    row * (plan.width * BYTES_PER_PIXEL) + k
}

/// An image has four bytes for each pixel, and each byte is that of its pixel
/// in the buffer, whatever the padding.
pub proof fn law_every_pixel_is_kept(plan: CopyPlan, buffer: Seq<u8>, row: int, k: int)
    requires
        0 <= row < plan.height,
        0 <= k < plan.width * BYTES_PER_PIXEL,
    ensures
        plan.pixels_of_rows(buffer, plan.height as nat).len() == plan.height * (plan.width
            * BYTES_PER_PIXEL),
        plan.pixels_of_rows(buffer, plan.height as nat)[pixel_at(plan, row, k)]
            == buffer[plan.source(row, k / 4, k % 4)],
{
    lemma_rows(plan, buffer, plan.height as nat);
    assert(plan.pixels_of_rows(buffer, plan.height as nat)[pixel_at(plan, row, k)]
        == buffer[plan.source(row, k / 4, k % 4)]);
}

/// `SystemTime` of std.
#[verifier::external_type_specification]
#[verifier::external_body]
pub struct ExSystemTime(std::time::SystemTime);

/// The nanoseconds from the start of 1970, in UTC, to a `SystemTime`; nothing
/// for a time before.
pub uninterp spec fn nanos_since_epoch(t: SystemTime) -> Option<nat>;

/// `SystemTime::duration_since` of std, from `UNIX_EPOCH`: the time that has
/// passed since, or an error for a time before.
#[verifier::external_body]
fn since_epoch(now: &SystemTime) -> (r: Option<Duration>)
    ensures
        match r {
            Some(d) => nanos_since_epoch(*now) == Some(nanos_of(d)),
            None => nanos_since_epoch(*now) is None,
        },
{
    now.duration_since(std::time::UNIX_EPOCH).ok()
}

/// `Duration::as_secs` of std: the whole seconds.
pub assume_specification[ Duration::as_secs ](d: &Duration) -> (r: u64)
    ensures
        r == nanos_of(*d) / 1_000_000_000,
;

/// `Duration::subsec_millis` of std: the whole milliseconds past the seconds.
pub assume_specification[ Duration::subsec_millis ](d: &Duration) -> (r: u32)
    ensures
        r == nanos_of(*d) / 1_000_000 % 1_000,
;

/// A number in at least `width` places, its sign counted, filled with zeros.
pub open spec fn signed_padded(n: int, width: nat) -> Seq<char> {
    if n < 0 {
        seq!['-'] + zero_padded((-n) as nat, (width - 1) as nat)
    } else {
        zero_padded(n as nat, width)
    }
}

/// `YYYYMMDD-HHMMSS-mmm`.
pub open spec fn stamp_text(year: i32, month: int, day: int, seconds: int, millis: int) -> Seq<
    char,
> {
    signed_padded(year as int, 4) + zero_padded(month as nat, 2) + zero_padded(day as nat, 2)
        + seq!['-'] + zero_padded((seconds / 3600) as nat, 2) + zero_padded(
        (seconds / 60 % 60) as nat,
        2,
    ) + zero_padded((seconds % 60) as nat, 2) + seq!['-'] + zero_padded(millis as nat, 3)
}

/// The text is the stamp of a moment in UTC. A year over 32 bits is cut to them.
pub open spec fn is_stamp(text: Seq<char>, seconds: int, millis: int) -> bool {
    exists|year: i64, month: u32, day: u32|
        {
            &&& #[trigger] is_date_of(seconds / 86_400, year as int, month as int, day as int)
            &&& text == stamp_text(
                year as i32,
                month as int,
                day as int,
                seconds % 86_400,
                millis,
            )
        }
}

proof fn lemma_minutes(s: int)
    requires
        0 <= s,
    ensures
        s % 3600 / 60 == s / 60 % 60,
{
}

proof fn lemma_is_stamp(
    text: Seq<char>,
    seconds: u64,
    millis: u32,
    year: i32,
    month: u32,
    day: u32,
)
    requires
        exists|y: i64|
            #[trigger] is_date_of(
                seconds as int / 86_400,
                y as int,
                month as int,
                day as int,
            ) && year == y as i32,
        text == stamp_text(
            year,
            month as int,
            day as int,
            seconds as int % 86_400,
            millis as int,
        ),
    ensures
        is_stamp(text, seconds as int, millis as int),
{
    let y = choose|y: i64|
        #[trigger] is_date_of(
            seconds as int / 86_400,
            y as int,
            month as int,
            day as int,
        ) && year == y as i32;
    assert(is_date_of(seconds as int / 86_400, y as int, month as int, day as int));
}

/// The stamp of the moment `seconds` and `millis` behind the start of 1970.
#[verifier::spinoff_prover]
pub fn stamp(seconds: u64, millis: u32) -> (r: String)
    ensures
        is_stamp(r@, seconds as int, millis as int),
{
    let days: i64 = (seconds / 86_400) as i64;
    let rest: u64 = seconds % 86_400;
    let (year, month, day) = civil_from_days(days);
    let mut out = String::new();
    if year < 0 {
        out.push('-');
        push_zero_padded(&mut out, (-(year as i64)) as u64, 3);
    } else {
        push_zero_padded(&mut out, year as u64, 4);
    }
    assert(out@ =~= signed_padded(year as int, 4));
    push_zero_padded(&mut out, month as u64, 2);
    push_zero_padded(&mut out, day as u64, 2);
    out.push('-');
    push_zero_padded(&mut out, rest / 3600, 2);
    push_zero_padded(&mut out, rest % 3600 / 60, 2);
    push_zero_padded(&mut out, rest % 60, 2);
    out.push('-');
    push_zero_padded(&mut out, millis as u64, 3);
    proof {
        let s = rest as int;
        lemma_minutes(s);
        assert(out@ =~= stamp_text(year, month as int, day as int, s, millis as int));
        lemma_is_stamp(out@, seconds, millis, year, month, day);
    }
    out
}

/// The name of a screenshot that is taken at `now`, without its ending. A time
/// before 1970 counts as its start.
pub fn timestamp_filename(now: SystemTime) -> (r: String)
    ensures
        ({
            let nanos = match nanos_since_epoch(now) {
                Some(n) => n as int,
                None => 0,
            };
            is_stamp(r@, nanos / 1_000_000_000, nanos / 1_000_000 % 1_000)
        }),
{
    match since_epoch(&now) {
        Some(passed) => stamp(passed.as_secs(), passed.subsec_millis()),
        None => stamp(0, 0),
    }
}

/// Why a screenshot could not be saved.
#[derive(Debug)]
pub enum ScreenshotError {
    Io(String),
    Poll(String),
    MapDropped,
    MapAsync(String),
    PixelLengthMismatch,
    Encode(String),
}

impl ScreenshotError {
    /// What `message` says of each error.
    pub open spec fn spec_message(self) -> Seq<char> {
        match self {
            ScreenshotError::Io(e) => "io error: "@ + e@,
            ScreenshotError::Poll(e) => "device poll failed: "@ + e@,
            ScreenshotError::MapDropped => "map_async callback was dropped"@,
            ScreenshotError::MapAsync(e) => "map_async failed: "@ + e@,
            ScreenshotError::PixelLengthMismatch =>
                "pixel buffer length did not match dimensions"@,
            ScreenshotError::Encode(e) => "png encode failed: "@ + e@,
        }
    }

    /// The error in words.
    pub fn message(&self) -> (r: String)
        ensures
            r@ == self.spec_message(),
    {
        match self {
            ScreenshotError::Io(e) => "io error: ".to_owned().concat(e.as_str()),
            ScreenshotError::Poll(e) => "device poll failed: ".to_owned().concat(e.as_str()),
            ScreenshotError::MapDropped => "map_async callback was dropped".to_owned(),
            ScreenshotError::MapAsync(e) => "map_async failed: ".to_owned().concat(e.as_str()),
            ScreenshotError::PixelLengthMismatch =>
                "pixel buffer length did not match dimensions".to_owned(),
            ScreenshotError::Encode(e) => "png encode failed: ".to_owned().concat(e.as_str()),
        }
    }
}

/// A screenshot shows the surface: pixel by pixel and row by row from the first,
/// without the padding of the copy, whose rows start at the multiples of 256
/// bytes that leave just enough room for them. Red, green, blue and alpha come in
/// this order, also where the surface has blue first.
pub proof fn law_screenshots_show_the_surface(
    width: u32,
    height: u32,
    order: ChannelOrder,
    plan: CopyPlan,
    buffer: &[u8],
    image: Vec<u8>,
    row: int,
    column: int,
)
    requires
        call_ensures(CopyPlan::new, (width, height, order), plan),
        buffer@.len() == plan.padded_bytes_per_row * height,
        call_ensures(CopyPlan::pixels, (&plan, buffer), image),
        0 <= row < height,
        0 <= column < width,
    ensures
        plan.padded_bytes_per_row % 256 == 0,
        4 * width <= plan.padded_bytes_per_row < 4 * width + 256,
        image@.len() == height * (width * 4),
        ({
            let to = row * (width * 4) + 4 * column;
            let from = row * plan.padded_bytes_per_row + 4 * column;
            &&& 0 <= to && to + 3 < image@.len()
            &&& 0 <= from && from + 3 < buffer@.len()
            &&& image@[to + 1] == buffer@[from + 1]
            &&& image@[to + 3] == buffer@[from + 3]
            &&& match order {
                ChannelOrder::Rgba => image@[to] == buffer@[from] && image@[to + 2]
                    == buffer@[from + 2],
                ChannelOrder::Bgra => image@[to] == buffer@[from + 2] && image@[to + 2]
                    == buffer@[from],
            }
        }),
{
    let wide = (width * BYTES_PER_PIXEL) as int;
    let stride = plan.padded_bytes_per_row as int;
    assert(stride == aligned_up(wide, 256));
    lemma_rows(plan, buffer@, height as nat);
    let k = 4 * column;
    assert(k / 4 == column && (k + 1) / 4 == column && (k + 2) / 4 == column && (k + 3) / 4
        == column);
    assert(k % 4 == 0 && (k + 1) % 4 == 1 && (k + 2) % 4 == 2 && (k + 3) % 4 == 3);
    assert(pixel_at(plan, row, k) == row * wide + k);
    assert(pixel_at(plan, row, k + 1) == row * wide + k + 1);
    assert(pixel_at(plan, row, k + 2) == row * wide + k + 2);
    assert(pixel_at(plan, row, k + 3) == row * wide + k + 3);
    assert(0 <= row * wide && row * wide + wide <= height * wide) by (nonlinear_arith)
        requires
            0 <= row < height,
            wide >= 0,
    ;
    assert(0 <= row * stride && row * stride + stride <= stride * height) by (nonlinear_arith)
        requires
            0 <= row < height,
            stride >= 0,
    ;
}

/// Every stamp of a year of four digits has the same shape, and says when it was:
/// year, month and day, a dash, hours, minutes and seconds, a dash, and
/// milliseconds, each with zeros in front.
pub proof fn law_stamps_tell_the_moment(
    year: i32,
    month: int,
    day: int,
    seconds: int,
    millis: int,
)
    requires
        0 <= year < 10_000,
        1 <= month <= 12,
        1 <= day <= 31,
        0 <= seconds < 86_400,
        0 <= millis < 1_000,
    ensures
        ({
            let text = stamp_text(year, month, day, seconds, millis);
            &&& text.len() == 19
            &&& text[8] == '-' && text[15] == '-'
            &&& value_of(text.subrange(0, 4)) == year
            &&& value_of(text.subrange(4, 6)) == month
            &&& value_of(text.subrange(6, 8)) == day
            &&& 3_600 * value_of(text.subrange(9, 11)) + 60 * value_of(text.subrange(11, 13))
                + value_of(text.subrange(13, 15)) == seconds
            &&& 0 <= value_of(text.subrange(11, 13)) < 60
            &&& 0 <= value_of(text.subrange(13, 15)) < 60
            &&& value_of(text.subrange(16, 19)) == millis
        }),
{
    let h = seconds / 3_600;
    let m = seconds / 60 % 60;
    let s = seconds % 60;
    let a = zero_padded(year as nat, 4);
    let b = zero_padded(month as nat, 2);
    let c = zero_padded(day as nat, 2);
    let d = zero_padded(h as nat, 2);
    let e = zero_padded(m as nat, 2);
    let f = zero_padded(s as nat, 2);
    let g = zero_padded(millis as nat, 3);
    law_padded_numbers_read_back(year as nat, 4);
    law_padded_numbers_read_back(month as nat, 2);
    law_padded_numbers_read_back(day as nat, 2);
    law_padded_numbers_read_back(h as nat, 2);
    law_padded_numbers_read_back(m as nat, 2);
    law_padded_numbers_read_back(s as nat, 2);
    law_padded_numbers_read_back(millis as nat, 3);
    law_small_numbers_are_short(year as nat);
    law_small_numbers_are_short(month as nat);
    law_small_numbers_are_short(day as nat);
    law_small_numbers_are_short(h as nat);
    law_small_numbers_are_short(m as nat);
    law_small_numbers_are_short(s as nat);
    law_small_numbers_are_short(millis as nat);
    let text = stamp_text(year, month, day, seconds, millis);
    assert(text =~= a + b + c + seq!['-'] + d + e + f + seq!['-'] + g);
    assert(text.subrange(0, 4) =~= a);
    assert(text.subrange(4, 6) =~= b);
    assert(text.subrange(6, 8) =~= c);
    assert(text.subrange(9, 11) =~= d);
    assert(text.subrange(11, 13) =~= e);
    assert(text.subrange(13, 15) =~= f);
    assert(text.subrange(16, 19) =~= g);
}

/// Each error says what failed, and the details if there are any.
pub proof fn law_errors_say_what_failed(error: ScreenshotError, text: String)
    requires
        call_ensures(ScreenshotError::message, (&error,), text),
    ensures
        match error {
            ScreenshotError::Io(detail) => text@ == "io error: "@ + detail@,
            ScreenshotError::Poll(detail) => text@ == "device poll failed: "@ + detail@,
            ScreenshotError::MapDropped => text@ == "map_async callback was dropped"@,
            ScreenshotError::MapAsync(detail) => text@ == "map_async failed: "@ + detail@,
            ScreenshotError::PixelLengthMismatch => text@
                == "pixel buffer length did not match dimensions"@,
            ScreenshotError::Encode(detail) => text@ == "png encode failed: "@ + detail@,
        },
{
}

} // verus!
