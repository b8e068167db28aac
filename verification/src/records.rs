use vstd::prelude::*;
use vstd::string::StringExecFns;

use crate::cache::{CacheKey, CsvRecord};
use crate::text::{all_digits, split_on, str_eq};

verus! {

// ---------------------------------------------------------------------------
// Column lookup by name
// ---------------------------------------------------------------------------

/// Position of the first column with this name, if any. Column order in the
/// file is irrelevant to the records built from it.
pub open spec fn find_col(header: Seq<Seq<char>>, name: Seq<char>) -> Option<int>
    decreases header.len(),
{
    if header.len() == 0 {
        None
    } else if header[0] == name {
        Some(0)
    } else {
        match find_col(header.skip(1), name) {
            None => None,
            Some(i) => Some(i + 1),
        }
    }
}

pub proof fn lemma_find_col(header: Seq<Seq<char>>, name: Seq<char>)
    ensures
        match find_col(header, name) {
            Some(i) => 0 <= i < header.len() && header[i] == name && forall|j: int|
                0 <= j < i ==> header[j] != name,
            None => forall|j: int| 0 <= j < header.len() ==> header[j] != name,
        },
    decreases header.len(),
{
    if header.len() > 0 && header[0] != name {
        lemma_find_col(header.skip(1), name);
        assert(forall|j: int|
            1 <= j < header.len() ==> (#[trigger] header[j]) == header.skip(1)[j - 1]);
    }
}

/// Finds the column carrying `name` in the header row.
pub fn find_col_idx(header: &Vec<String>, name: &str) -> (r: Option<usize>)
    ensures
        match r {
            Some(i) => find_col(header.deep_view(), name@) == Some(i as int),
            None => find_col(header.deep_view(), name@) is None,
        },
{
    let ghost h = header.deep_view();
    let mut i: usize = 0;
    while i < header.len()
        invariant
            i <= header@.len(),
            h == header.deep_view(),
            forall|j: int| 0 <= j < i ==> h[j] != name@,
        decreases header@.len() - i,
    {
        if str_eq(header[i].as_str(), name) {
            proof {
                lemma_find_col(h, name@);
                match find_col(h, name@) {
                    Some(x) => {
                        if x < i {
                            assert(h[x] == name@);
                        }
                        if x > i {
                            assert(h[i as int] != name@);
                        }
                    },
                    None => {
                        assert(h[i as int] != name@);
                    },
                }
            }
            return Some(i);
        }
        i = i + 1;
    }
    proof {
        lemma_find_col(h, name@);
        if find_col(h, name@) is Some {
            let x = find_col(h, name@)->0;
            assert(h[x] == name@);
        }
    }
    None
}

// ---------------------------------------------------------------------------
// Coordinate values
// ---------------------------------------------------------------------------

/// A number literal without its sign.
pub open spec fn decimal_body(s: Seq<char>) -> Seq<char> {
    if s.len() > 0 && (s[0] == '-' || s[0] == '+') {
        s.skip(1)
    } else {
        s
    }
}

/// A plain signed decimal number: an optional sign, then digits, with at most
/// one decimal point and digits on both sides of it. This is the coordinate
/// grammar the library defines — deliberately plainer than general float
/// syntax, so exponent forms or a bare leading point are malformed values.
pub open spec fn is_plain_decimal(s: Seq<char>) -> bool {
    let parts = split_on(decimal_body(s), '.');
    &&& 1 <= parts.len() <= 2
    &&& forall|i: int|
        0 <= i < parts.len() ==> (#[trigger] parts[i]).len() > 0 && all_digits(parts[i])
}

fn all_digits_str(s: &str) -> (r: bool)
    ensures
        r == all_digits(s@),
{
    let n = s.unicode_len();
    let mut i: usize = 0;
    while i < n
        invariant
            i <= n,
            n == s@.len(),
            forall|j: int| 0 <= j < i ==> crate::text::is_digit(s@[j]),
        decreases n - i,
    {
        let cv = s.get_char(i) as u32;
        if cv < 48 || cv > 57 {
            return false;
        }
        i = i + 1;
    }
    true
}

/// Checks a coordinate field: optional sign, digits, at most one decimal
/// point with digits on both sides.
pub fn is_plain_decimal_str(s: &str) -> (r: bool)
    ensures
        r == is_plain_decimal(s@),
{
    let n = s.unicode_len();
    let body: &str = if n > 0 && {
        let c = s.get_char(0);
        c == '-' || c == '+'
    } {
        s.substring_char(1, n)
    } else {
        proof {
            assert(s@.subrange(0, s@.len() as int) =~= s@);
        }
        s.substring_char(0, n)
    };
    proof {
        assert(body@ =~= decimal_body(s@));
    }
    let parts = crate::text::split_str(body, '.');
    let ghost sparts = split_on(decimal_body(s@), '.');
    if parts.len() > 2 {
        return false;
    }
    let mut i: usize = 0;
    while i < parts.len()
        invariant
            i <= parts@.len(),
            parts.deep_view() == sparts,
            sparts == split_on(decimal_body(s@), '.'),
            parts@.len() <= 2,
            forall|j: int| 0 <= j < i ==> (#[trigger] sparts[j]).len() > 0 && all_digits(sparts[j]),
        decreases parts@.len() - i,
    {
        let p = parts[i].as_str();
        proof {
            assert(p@ == sparts[i as int]);
        }
        if p.unicode_len() == 0 {
            proof {
                assert(!((#[trigger] sparts[i as int]).len() > 0 && all_digits(
                    sparts[i as int],
                )));
            }
            return false;
        }
        if !all_digits_str(p) {
            proof {
                assert(!(sparts[i as int].len() > 0 && all_digits(sparts[i as int])));
            }
            return false;
        }
        i = i + 1;
    }
    proof {
        crate::text::lemma_split_on_len(decimal_body(s@), '.');
    }
    true
}

// ---------------------------------------------------------------------------
// The two cached record types
// ---------------------------------------------------------------------------

/// Metadata about a reporting device, keyed by its chip identifier. The
/// coordinates are carried as the decimal text they were written with.
#[derive(Clone, Debug)]
pub struct ChipInfo {
    pub chip_id: String,
    pub city: String,
    pub info: String,
    pub lat: String,
    pub lon: String,
}

impl CacheKey for ChipInfo {
    open spec fn spec_id(&self) -> Seq<char> {
        self.chip_id@
    }

    fn id(&self) -> (r: String)
        ensures
            r@ == self.spec_id(),
    {
        self.chip_id.clone()
    }
}

impl CsvRecord for ChipInfo {
    open spec fn row_ok(header: Seq<Seq<char>>, fields: Seq<Seq<char>>) -> bool {
        &&& find_col(header, "chip_id"@) is Some
        &&& find_col(header, "city"@) is Some
        &&& find_col(header, "info"@) is Some
        &&& find_col(header, "lat"@) is Some
        &&& find_col(header, "lon"@) is Some
        &&& is_plain_decimal(fields[find_col(header, "lat"@)->0])
        &&& is_plain_decimal(fields[find_col(header, "lon"@)->0])
    }

    open spec fn row_id(header: Seq<Seq<char>>, fields: Seq<Seq<char>>) -> Seq<char> {
        fields[find_col(header, "chip_id"@)->0]
    }

    open spec fn row_matches(header: Seq<Seq<char>>, fields: Seq<Seq<char>>, rec: Self) -> bool {
        &&& rec.chip_id@ == fields[find_col(header, "chip_id"@)->0]
        &&& rec.city@ == fields[find_col(header, "city"@)->0]
        &&& rec.info@ == fields[find_col(header, "info"@)->0]
        &&& rec.lat@ == fields[find_col(header, "lat"@)->0]
        &&& rec.lon@ == fields[find_col(header, "lon"@)->0]
    }

    proof fn lemma_row_id(header: Seq<Seq<char>>, fields: Seq<Seq<char>>, rec: Self) {
    }

    fn from_row(header: &Vec<String>, fields: &Vec<String>) -> (r: Option<Self>) {
        let ghost h = header.deep_view();
        let ci = match find_col_idx(header, "chip_id") {
            Some(i) => i,
            None => {
                return None;
            },
        };
        let cy = match find_col_idx(header, "city") {
            Some(i) => i,
            None => {
                return None;
            },
        };
        let inf = match find_col_idx(header, "info") {
            Some(i) => i,
            None => {
                return None;
            },
        };
        let la = match find_col_idx(header, "lat") {
            Some(i) => i,
            None => {
                return None;
            },
        };
        let lo = match find_col_idx(header, "lon") {
            Some(i) => i,
            None => {
                return None;
            },
        };
        proof {
            lemma_find_col(h, "chip_id"@);
            lemma_find_col(h, "city"@);
            lemma_find_col(h, "info"@);
            lemma_find_col(h, "lat"@);
            lemma_find_col(h, "lon"@);
        }
        if !is_plain_decimal_str(fields[la].as_str()) {
            return None;
        }
        if !is_plain_decimal_str(fields[lo].as_str()) {
            return None;
        }
        Some(
            ChipInfo {
                chip_id: fields[ci].clone(),
                city: fields[cy].clone(),
                info: fields[inf].clone(),
                lat: fields[la].clone(),
                lon: fields[lo].clone(),
            },
        )
    }
}

/// One sensor on a device: which chip carries it, its own identifier, and its
/// type. Keyed by `chip_id:sensor_type`, the pair a measurement names.
#[derive(Clone, Debug)]
pub struct SensorInfo {
    pub chip_id: String,
    pub sensor_id: String,
    pub sensor_type: String,
}

impl CacheKey for SensorInfo {
    open spec fn spec_id(&self) -> Seq<char> {
        self.chip_id@ + seq![':'] + self.sensor_type@
    }

    fn id(&self) -> (r: String)
        ensures
            r@ == self.spec_id(),
    {
        let mut s = self.chip_id.clone();
        s.append(":");
        s.append(self.sensor_type.as_str());
        proof {
            reveal_strlit(":");
            assert(":"@ =~= seq![':']);
        }
        s
    }
}

impl CsvRecord for SensorInfo {
    open spec fn row_ok(header: Seq<Seq<char>>, fields: Seq<Seq<char>>) -> bool {
        &&& find_col(header, "chip_id"@) is Some
        &&& find_col(header, "sensor_id"@) is Some
        &&& find_col(header, "sensor_type"@) is Some
    }

    open spec fn row_id(header: Seq<Seq<char>>, fields: Seq<Seq<char>>) -> Seq<char> {
        fields[find_col(header, "chip_id"@)->0] + seq![':'] + fields[find_col(
            header,
            "sensor_type"@,
        )->0]
    }

    open spec fn row_matches(header: Seq<Seq<char>>, fields: Seq<Seq<char>>, rec: Self) -> bool {
        &&& rec.chip_id@ == fields[find_col(header, "chip_id"@)->0]
        &&& rec.sensor_id@ == fields[find_col(header, "sensor_id"@)->0]
        &&& rec.sensor_type@ == fields[find_col(header, "sensor_type"@)->0]
    }

    proof fn lemma_row_id(header: Seq<Seq<char>>, fields: Seq<Seq<char>>, rec: Self) {
    }

    fn from_row(header: &Vec<String>, fields: &Vec<String>) -> (r: Option<Self>) {
        let ghost h = header.deep_view();
        let ci = match find_col_idx(header, "chip_id") {
            Some(i) => i,
            None => {
                return None;
            },
        };
        let si = match find_col_idx(header, "sensor_id") {
            Some(i) => i,
            None => {
                return None;
            },
        };
        let st = match find_col_idx(header, "sensor_type") {
            Some(i) => i,
            None => {
                return None;
            },
        };
        proof {
            lemma_find_col(h, "chip_id"@);
            lemma_find_col(h, "sensor_id"@);
            lemma_find_col(h, "sensor_type"@);
        }
        Some(
            SensorInfo {
                chip_id: fields[ci].clone(),
                sensor_id: fields[si].clone(),
                sensor_type: fields[st].clone(),
            },
        )
    }
}

/// A payload of some JSON shape together with the sensor header naming the
/// chip it came from, as the request extractor hands it to the handler.
pub struct SensorData<T> {
    pub json: T,
    pub sensor: String,
}

} // verus!
