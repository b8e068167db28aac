//! Ingestion gateway core: a hot-reloading, concurrently readable cache of
//! device metadata records, loaded from a header-bearing delimited text file
//! and kept current by a filesystem watch with a self-healing reload loop.

pub mod cache;
pub mod config;
pub mod http;
pub mod records;
pub mod sensor_data;
pub mod store;
pub mod suffix;
pub mod text;
pub mod watch;
pub mod writers;

pub use cache::{CacheKey, CacheMap, CsvRecord, LoadError};
pub use config::{Context, Login, PerfConfig};
pub use http::AppError;
pub use records::{ChipInfo, SensorData, SensorInfo};
pub use sensor_data::{get_sensor_id, CsvData, Payload, SensorValue};
pub use store::{CacheSnapshot, CacheStore};
pub use writers::{
    InfluxDB, InfluxDB2DataWriter, InfluxDB3, InfluxDB3DataWriter, QuestDB, QuestDBDataWriter,
};
