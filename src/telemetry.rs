//! The simulator's UDP telemetry records: a sequence of fields, laid out in
//! the order that the stream format names them, each made of little-endian
//! single-precision floats. Values are kept as their IEEE-754 bit patterns.
use vstd::prelude::*;
use vstd::utf8::encode_utf8_decode_utf8;

verus! {

/// Where the simulator sends its telemetry, and which fields each record holds.
#[derive(Debug, Clone)]
pub struct TelemetryDescriptor {
    pub end_point: String,
    pub stream_format: Vec<String>,
}

/// The fields a stream format can name.
#[derive(Debug, Clone, Copy, PartialEq, Eq, Structural)]
pub enum TelemetryField {
    Timestamp,
    Position,
    Attitude,
    Velocity,
    Gyro,
    Input,
    Battery,
    MotorRpm,
}

/// Why a telemetry record could not be read.
#[derive(Debug, Clone, Copy, PartialEq, Eq, Structural)]
pub enum TelemetryError {
    /// The record ends before a field it should hold.
    BufferTooShort,
    /// The stream format names a field that does not exist.
    UnknownField,
}

/// One telemetry record. Each value is the bit pattern of an `f32`.
#[derive(Debug, Clone)]
pub struct TelemetryRecord {
    pub timestamp: Option<u32>,
    /// X, Y, Z.
    pub position: Option<Vec<u32>>,
    /// Quaternion X, Y, Z, W.
    pub attitude: Option<Vec<u32>>,
    /// X, Y, Z.
    pub velocity: Option<Vec<u32>>,
    /// Pitch, roll, yaw.
    pub gyro: Option<Vec<u32>>,
    /// Throttle, yaw, pitch, roll.
    pub input: Option<Vec<u32>>,
    /// Percentage, voltage.
    pub battery: Option<Vec<u32>>,
    pub motor_rpm: Option<Vec<u32>>,
}

/// A telemetry record as a mathematical value.
pub struct RecordView {
    pub timestamp: Option<u32>,
    pub position: Option<Seq<u32>>,
    pub attitude: Option<Seq<u32>>,
    pub velocity: Option<Seq<u32>>,
    pub gyro: Option<Seq<u32>>,
    pub input: Option<Seq<u32>>,
    pub battery: Option<Seq<u32>>,
    pub motor_rpm: Option<Seq<u32>>,
}

/// The contents of an optional list of words.
pub open spec fn words_view(v: Option<Vec<u32>>) -> Option<Seq<u32>> {
    match v {
        Some(v) => Some(v@),
        None => None,
    }
}

impl View for TelemetryRecord {
    type V = RecordView;

    open spec fn view(&self) -> RecordView {
        RecordView {
            timestamp: self.timestamp,
            position: words_view(self.position),
            attitude: words_view(self.attitude),
            velocity: words_view(self.velocity),
            gyro: words_view(self.gyro),
            input: words_view(self.input),
            battery: words_view(self.battery),
            motor_rpm: words_view(self.motor_rpm),
        }
    }
}

/// The record with no field present.
pub open spec fn empty_record() -> RecordView {
    RecordView {
        timestamp: None,
        position: None,
        attitude: None,
        velocity: None,
        gyro: None,
        input: None,
        battery: None,
        motor_rpm: None,
    }
}

/// The field a stream format entry names.
pub open spec fn field_of(name: Seq<char>) -> Option<TelemetryField> {
    if name == "Timestamp"@ {
        Some(TelemetryField::Timestamp)
    } else if name == "Position"@ {
        Some(TelemetryField::Position)
    } else if name == "Attitude"@ {
        Some(TelemetryField::Attitude)
    } else if name == "Velocity"@ {
        Some(TelemetryField::Velocity)
    } else if name == "Gyro"@ {
        Some(TelemetryField::Gyro)
    } else if name == "Input"@ {
        Some(TelemetryField::Input)
    } else if name == "Battery"@ {
        Some(TelemetryField::Battery)
    } else if name == "MotorRPM"@ {
        Some(TelemetryField::MotorRpm)
    } else {
        None
    }
}

/// Number of floats in a field of fixed size.
pub open spec fn fixed_width(f: TelemetryField) -> nat {
    match f {
        TelemetryField::Timestamp => 1,
        TelemetryField::Position => 3,
        TelemetryField::Attitude => 4,
        TelemetryField::Velocity => 3,
        TelemetryField::Gyro => 3,
        TelemetryField::Input => 4,
        TelemetryField::Battery => 2,
        TelemetryField::MotorRpm => 0,
    }
}

/// The little-endian 32-bit word at `d[i]` to `d[i + 3]`.
pub open spec fn le32_at(d: Seq<u8>, i: int) -> u32 {
    (d[i] as int + d[i + 1] as int * 0x100 + d[i + 2] as int * 0x1_0000 + d[i + 3] as int
        * 0x100_0000) as u32
}

/// `n` consecutive little-endian words starting at `d[at]`.
pub open spec fn words_at(d: Seq<u8>, at: int, n: nat) -> Seq<u32> {
    Seq::new(n, |i: int| le32_at(d, at + 4 * i))
}

/// `rec` with field `f` set to `vals`.
pub open spec fn set_field(rec: RecordView, f: TelemetryField, vals: Seq<u32>) -> RecordView {
    match f {
        TelemetryField::Timestamp => RecordView { timestamp: Some(vals[0]), ..rec },
        TelemetryField::Position => RecordView { position: Some(vals), ..rec },
        TelemetryField::Attitude => RecordView { attitude: Some(vals), ..rec },
        TelemetryField::Velocity => RecordView { velocity: Some(vals), ..rec },
        TelemetryField::Gyro => RecordView { gyro: Some(vals), ..rec },
        TelemetryField::Input => RecordView { input: Some(vals), ..rec },
        TelemetryField::Battery => RecordView { battery: Some(vals), ..rec },
        TelemetryField::MotorRpm => RecordView { motor_rpm: Some(vals), ..rec },
    }
}

/// Reads the field named `name` at offset `at`: the record with that field
/// set and the offset after it, or why it cannot be read. Motor RPM values
/// are preceded by a byte that counts them.
pub open spec fn read_field(d: Seq<u8>, name: Seq<char>, rec: RecordView, at: nat) -> Result<
    (RecordView, nat),
    TelemetryError,
> {
    match field_of(name) {
        None => Err(TelemetryError::UnknownField),
        Some(TelemetryField::MotorRpm) => if at + 1 > d.len() {
            Err(TelemetryError::BufferTooShort)
        } else {
            let count = d[at as int] as nat;
            if at + 1 + 4 * count > d.len() {
                Err(TelemetryError::BufferTooShort)
            } else {
                Ok(
                    (
                        set_field(rec, TelemetryField::MotorRpm, words_at(d, at + 1 as int, count)),
                        at + 1 + 4 * count,
                    ),
                )
            }
        },
        Some(f) => if at + 4 * fixed_width(f) > d.len() {
            Err(TelemetryError::BufferTooShort)
        } else {
            Ok((set_field(rec, f, words_at(d, at as int, fixed_width(f))), at + 4 * fixed_width(f)))
        },
    }
}

/// The record and offset after the first `k` fields of the format, or the
/// first error met.
pub open spec fn read_fields(d: Seq<u8>, names: Seq<Seq<char>>, k: nat) -> Result<
    (RecordView, nat),
    TelemetryError,
>
    decreases k,
{
    if k == 0 {
        Ok((empty_record(), 0))
    } else {
        match read_fields(d, names, (k - 1) as nat) {
            Ok((rec, at)) => read_field(d, names[k - 1], rec, at),
            Err(e) => Err(e),
        }
    }
}

/// Once a field cannot be read, the whole record cannot, for that reason.
proof fn lemma_read_fields_error_stays(d: Seq<u8>, names: Seq<Seq<char>>, k: nat, m: nat)
    requires
        k <= m,
        read_fields(d, names, k) is Err,
    ensures
        read_fields(d, names, m) == read_fields(d, names, k),
    decreases m - k,
{
    if k < m {
        lemma_read_fields_error_stays(d, names, k, (m - 1) as nat);
    }
}

/// The record that `d` holds under the stream format `names`.
pub open spec fn parse_spec(d: Seq<u8>, names: Seq<Seq<char>>) -> Result<RecordView, TelemetryError> {
    match read_fields(d, names, names.len()) {
        Ok((rec, _)) => Ok(rec),
        Err(e) => Err(e),
    }
}

/// The view of a parse result.
pub open spec fn record_result_view(r: Result<TelemetryRecord, TelemetryError>) -> Result<
    RecordView,
    TelemetryError,
> {
    match r {
        Ok(rec) => Ok(rec@),
        Err(e) => Err(e),
    }
}

/// The texts of a list of strings.
pub open spec fn names_view(format: Seq<String>) -> Seq<Seq<char>> {
    format.map_values(|s: String| s@)
}

/// Whether two strings hold the same text.
fn same_text(a: &str, b: &str) -> (r: bool)
    ensures
        r == (a@ == b@),
{
    let x = a.as_bytes();
    let y = b.as_bytes();
    proof {
        encode_utf8_decode_utf8(a@);
        encode_utf8_decode_utf8(b@);
    }
    assert(a@ == b@ ==> x@ == y@);
    if x.len() != y.len() {
        return false;
    }
    let mut i: usize = 0;
    while i < x.len()
        invariant
            x@.len() == y@.len(),
            a@ == b@ ==> x@ == y@,
            x@ == y@ ==> a@ == b@,
            i <= x@.len(),
            forall|j: int| 0 <= j < i ==> x@[j] == y@[j],
        decreases x@.len() - i,
    {
        if x[i] != y[i] {
            assert(x@[i as int] != y@[i as int]);
            return false;
        }
        i = i + 1;
    }
    assert(x@ =~= y@);
    true
}

/// The field a stream format entry names.
pub fn field_from_name(name: &str) -> (r: Option<TelemetryField>)
    ensures
        r == field_of(name@),
{
    if same_text(name, "Timestamp") {
        Some(TelemetryField::Timestamp)
    } else if same_text(name, "Position") {
        Some(TelemetryField::Position)
    } else if same_text(name, "Attitude") {
        Some(TelemetryField::Attitude)
    } else if same_text(name, "Velocity") {
        Some(TelemetryField::Velocity)
    } else if same_text(name, "Gyro") {
        Some(TelemetryField::Gyro)
    } else if same_text(name, "Input") {
        Some(TelemetryField::Input)
    } else if same_text(name, "Battery") {
        Some(TelemetryField::Battery)
    } else if same_text(name, "MotorRPM") {
        Some(TelemetryField::MotorRpm)
    } else {
        None
    }
}

/// `n` little-endian words starting at `d[at]`.
fn read_words(d: &[u8], at: usize, n: usize) -> (r: Vec<u32>)
    requires
        at + 4 * n <= d@.len(),
    ensures
        r@ == words_at(d@, at as int, n as nat),
{
    let len = d.len();
    let mut out: Vec<u32> = Vec::with_capacity(n);
    let mut i: usize = 0;
    while i < n
        invariant
            len == d@.len(),
            i <= n,
            at + 4 * n <= d@.len(),
            out@ == words_at(d@, at as int, i as nat),
        decreases n - i,
    {
        let p = at + 4 * i;
        let w = (d[p] as u32) + (d[p + 1] as u32) * 0x100 + (d[p + 2] as u32) * 0x1_0000 + (d[p
            + 3] as u32) * 0x100_0000;
        out.push(w);
        i = i + 1;
        assert(out@ =~= words_at(d@, at as int, i as nat));
    }
    out
}

/// Reads a telemetry record laid out as `format` names its fields.
///
/// Fails with `UnknownField` at the first name that is no field, and with
/// `BufferTooShort` at the first field that the data does not hold whole.
pub fn parse_packet(data: &[u8], format: &[String]) -> (r: Result<TelemetryRecord, TelemetryError>)
    ensures
        record_result_view(r) == parse_spec(data@, names_view(format@)),
{
    let ghost names = names_view(format@);
    let mut rec = TelemetryRecord {
        timestamp: None,
        position: None,
        attitude: None,
        velocity: None,
        gyro: None,
        input: None,
        battery: None,
        motor_rpm: None,
    };
    let mut at: usize = 0;
    let mut k: usize = 0;
    while k < format.len()
        invariant
            k <= format@.len(),
            names == names_view(format@),
            at <= data@.len(),
            read_fields(data@, names, k as nat) == Ok::<(RecordView, nat), TelemetryError>(
                (rec@, at as nat),
            ),
        decreases format@.len() - k,
    {
        let name = format[k].as_str();
        assert(names[k as int] == format@[k as int]@);
        let kind = field_from_name(name);
        match kind {
            None => {
                proof {
                    lemma_read_fields_error_stays(data@, names, k as nat + 1, names.len());
                }
                return Err(TelemetryError::UnknownField);
            },
            Some(TelemetryField::MotorRpm) => {
                if data.len() - at < 1 {
                    proof {
                        lemma_read_fields_error_stays(data@, names, k as nat + 1, names.len());
                    }
                    return Err(TelemetryError::BufferTooShort);
                }
                let count = data[at] as usize;
                if data.len() - at - 1 < 4 * count {
                    proof {
                        lemma_read_fields_error_stays(data@, names, k as nat + 1, names.len());
                    }
                    return Err(TelemetryError::BufferTooShort);
                }
                rec.motor_rpm = Some(read_words(data, at + 1, count));
                at = at + 1 + 4 * count;
            },
            Some(f) => {
                let n: usize = match f {
                    TelemetryField::Timestamp => 1,
                    TelemetryField::Position => 3,
                    TelemetryField::Attitude => 4,
                    TelemetryField::Velocity => 3,
                    TelemetryField::Gyro => 3,
                    TelemetryField::Input => 4,
                    TelemetryField::Battery => 2,
                    TelemetryField::MotorRpm => 0,
                };
                assert(n == fixed_width(f));
                if data.len() - at < 4 * n {
                    proof {
                        lemma_read_fields_error_stays(data@, names, k as nat + 1, names.len());
                    }
                    return Err(TelemetryError::BufferTooShort);
                }
                let vals = read_words(data, at, n);
                match f {
                    TelemetryField::Timestamp => {
                        rec.timestamp = Some(vals[0]);
                    },
                    TelemetryField::Position => {
                        rec.position = Some(vals);
                    },
                    TelemetryField::Attitude => {
                        rec.attitude = Some(vals);
                    },
                    TelemetryField::Velocity => {
                        rec.velocity = Some(vals);
                    },
                    TelemetryField::Gyro => {
                        rec.gyro = Some(vals);
                    },
                    TelemetryField::Input => {
                        rec.input = Some(vals);
                    },
                    TelemetryField::Battery => {
                        rec.battery = Some(vals);
                    },
                    TelemetryField::MotorRpm => {
                        rec.motor_rpm = Some(vals);
                    },
                }
                at = at + 4 * n;
            },
        }
        k = k + 1;
    }
    Ok(rec)
}

} // verus!
