use vstd::prelude::*;
use vstd::string::StringExecFns;

use crate::cache::CacheMap;
use crate::http::AppError;
use crate::records::SensorInfo;
use crate::store::CacheStore;

verus! {

/// A measurement payload as a node posts it: the reporting firmware version
/// and a list of raw values.
pub struct Payload {
    pub software_version: String,
    pub sensordatavalues: Vec<SensorValue>,
}

/// One raw measurement: which quantity it reports and its value as text.
pub struct SensorValue {
    pub value_type: String,
    pub value: String,
}

/// Summary of one bulk import from a delimited file.
pub struct CsvData {
    pub filename: String,
    pub record_count: i64,
}

/// The identity a measurement resolves a sensor by: `chip_id:sensor_type`.
pub open spec fn spec_sensor_key(chip_id: Seq<char>, sensor_type: Seq<char>) -> Seq<char> {
    chip_id + seq![':'] + sensor_type
}

/// Builds the sensor cache key for a chip and sensor type.
pub fn sensor_key(chip_id: &str, sensor_type: &str) -> (r: String)
    ensures
        r@ == spec_sensor_key(chip_id@, sensor_type@),
{
    let mut s = chip_id.to_owned();
    s.append(":");
    s.append(sensor_type);
    proof {
        reveal_strlit(":");
        assert(":"@ =~= seq![':']);
        assert(s@ =~= spec_sensor_key(chip_id@, sensor_type@));
    }
    s
}

/// Looks the sensor identifier up in one complete mapping.
pub fn lookup_sensor_id(m: &CacheMap<SensorInfo>, chip_id: &str, sensor_type: &str) -> (r: Option<
    String,
>)
    requires
        m.wf(),
    ensures
        match r {
            Some(s) => m@.contains_key(spec_sensor_key(chip_id@, sensor_type@)) && s@ == m@[
                spec_sensor_key(chip_id@, sensor_type@)
            ].sensor_id@,
            None => !m@.contains_key(spec_sensor_key(chip_id@, sensor_type@)),
        },
{
    let key = sensor_key(chip_id, sensor_type);
    match m.get(key.as_str()) {
        Some(info) => Some(info.sensor_id.clone()),
        None => None,
    }
}

/// Resolves the sensor identifier for a chip and sensor type against the
/// current snapshot of the shared sensor cache, or reports the missing key.
/// Which snapshot answers is the concurrent store's choice — the contract
/// binds the whole result to one witness mapping — and the lookup in that
/// one complete mapping is [`lookup_sensor_id`].
pub fn get_sensor_id(
    sensor_cache: &CacheStore<SensorInfo>,
    chip_id: &str,
    sensor_type: &str,
) -> (r: Result<String, AppError>)
    ensures
        (r matches Err(e) ==> e.0@ == "missing sensor id for key: "@ + spec_sensor_key(
            chip_id@,
            sensor_type@,
        )),
        exists|m: Map<Seq<char>, SensorInfo>|
            match r {
                Ok(s) => (#[trigger] m.contains_key(spec_sensor_key(chip_id@, sensor_type@)))
                    && s@ == m[spec_sensor_key(chip_id@, sensor_type@)].sensor_id@,
                Err(_) => !m.contains_key(spec_sensor_key(chip_id@, sensor_type@)),
            },
{
    let snap = sensor_cache.read();
    let ghost gm = snap@;
    let found = lookup_sensor_id(snap.map(), chip_id, sensor_type);
    snap.release();
    match found {
        Some(s) => {
            proof {
                assert(gm.contains_key(spec_sensor_key(chip_id@, sensor_type@)) && s@ == gm[
                    spec_sensor_key(chip_id@, sensor_type@)
                ].sensor_id@);
            }
            Ok(s)
        },
        None => {
            let mut msg = "missing sensor id for key: ".to_owned();
            let key = sensor_key(chip_id, sensor_type);
            msg.append(key.as_str());
            proof {
                assert(!gm.contains_key(spec_sensor_key(chip_id@, sensor_type@)));
            }
            Err(AppError(msg))
        },
    }
}

} // verus!
