use vstd::prelude::*;
use vstd::string::StringExecFns;

verus! {

/// Connection settings for an InfluxDB 2 backend.
#[derive(Clone, Debug)]
pub struct InfluxDB {
    pub url: String,
    pub token: String,
    pub org: String,
    pub bucket: String,
    pub measurement: String,
}

impl Default for InfluxDB {
    fn default() -> (r: Self)
        ensures
            r.url@ == ""@,
            r.token@ == ""@,
            r.org@ == ""@,
            r.bucket@ == "mypassword"@,
            r.measurement@ == ""@,
    {
        InfluxDB {
            url: "".to_owned(),
            token: "".to_owned(),
            org: "".to_owned(),
            bucket: "mypassword".to_owned(),
            measurement: "".to_owned(),
        }
    }
}

/// Connection settings for an InfluxDB 3 backend.
#[derive(Clone, Debug)]
pub struct InfluxDB3 {
    pub url: String,
    pub token: String,
    pub database: String,
    pub table: String,
}

impl Default for InfluxDB3 {
    fn default() -> (r: Self)
        ensures
            r.url@ == ""@,
            r.token@ == ""@,
            r.database@ == "mydb"@,
            r.table@ == ""@,
    {
        InfluxDB3 {
            url: "".to_owned(),
            token: "".to_owned(),
            database: "mydb".to_owned(),
            table: "".to_owned(),
        }
    }
}

/// Connection settings for a QuestDB backend.
#[derive(Clone, Debug)]
pub struct QuestDB {
    pub use_https: bool,
    pub addr: String,
    pub username: String,
    pub password: String,
    pub table: String,
}

impl Default for QuestDB {
    fn default() -> (r: Self)
        ensures
            r.use_https,
            r.addr@ == ""@,
            r.username@ == ""@,
            r.password@ == ""@,
            r.table@ == ""@,
    {
        QuestDB {
            use_https: true,
            addr: "".to_owned(),
            username: "".to_owned(),
            password: "".to_owned(),
            table: "".to_owned(),
        }
    }
}

/// Holds the settings for writing enriched records to an InfluxDB 2 backend;
/// the transport that uses them lives outside the library.
pub struct InfluxDB2DataWriter {
    pub settings: InfluxDB,
}

impl InfluxDB2DataWriter {
    pub fn new(settings: InfluxDB) -> (r: Self)
        ensures
            r.settings == settings,
    {
        InfluxDB2DataWriter { settings }
    }
}

/// Holds the settings for writing enriched records to an InfluxDB 3 backend;
/// the transport that uses them lives outside the library.
pub struct InfluxDB3DataWriter {
    pub settings: InfluxDB3,
}

impl InfluxDB3DataWriter {
    pub fn new(settings: InfluxDB3) -> (r: Self)
        ensures
            r.settings == settings,
    {
        InfluxDB3DataWriter { settings }
    }
}

/// Holds the settings for writing enriched records to a QuestDB backend; the
/// transport that uses them lives outside the library.
pub struct QuestDBDataWriter {
    pub settings: QuestDB,
}

impl QuestDBDataWriter {
    pub fn new(settings: QuestDB) -> (r: Self)
        ensures
            r.settings == settings,
    {
        QuestDBDataWriter { settings }
    }
}

} // verus!
