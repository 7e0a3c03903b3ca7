//! Service configuration: the values loaded at startup and threaded
//! explicitly through worker construction.
//!
//! Reading and parsing the configuration file is input/output and stays
//! outside the library; this module holds the validated shape the workers
//! consume.

use vstd::prelude::*;

verus! {

/// Listening address of the HTTP front end.
#[derive(Debug)]
pub struct ServerConfig {
    pub port: u16,
    pub address: String,
}

/// Location of the on-disk store, per environment.
#[derive(Debug)]
pub struct DatabaseConfig {
    pub db: String,
    pub stage: String,
}

/// Reader worker: module-cache capacity and request-queue bound.
#[derive(Clone, Copy, PartialEq, Eq, Structural, Debug)]
pub struct ReaderConfig {
    pub cache_size: usize,
    pub channel_size: usize,
}

/// Writer worker: request-queue bound.
#[derive(Clone, Copy, PartialEq, Eq, Structural, Debug)]
pub struct WriterConfig {
    pub channel_size: usize,
}

/// Runner worker: compile-cache capacity and request-queue bound.
#[derive(Clone, Copy, PartialEq, Eq, Structural, Debug)]
pub struct RunnerConfig {
    pub cache_size: usize,
    pub channel_size: usize,
}

/// The whole startup configuration.
#[derive(Debug)]
pub struct Config {
    pub server: ServerConfig,
    pub database: DatabaseConfig,
    pub reader: ReaderConfig,
    pub writer: WriterConfig,
    pub runner: RunnerConfig,
}

impl Config {
    /// A configuration is usable when every cache has room for at least one
    /// entry and every queue admits at least one job.
    pub open spec fn wf(&self) -> bool {
        &&& self.reader.cache_size >= 1
        &&& self.reader.channel_size >= 1
        &&& self.writer.channel_size >= 1
        &&& self.runner.cache_size >= 1
        &&& self.runner.channel_size >= 1
    }

    /// Assembles a configuration from validated parts.
    pub fn new(
        server: ServerConfig,
        database: DatabaseConfig,
        reader: ReaderConfig,
        writer: WriterConfig,
        runner: RunnerConfig,
    ) -> (r: Config)
        requires
            reader.cache_size >= 1,
            reader.channel_size >= 1,
            writer.channel_size >= 1,
            runner.cache_size >= 1,
            runner.channel_size >= 1,
        ensures
            r.wf(),
            r.reader == reader,
            r.writer == writer,
            r.runner == runner,
    {
        Config { server, database, reader, writer, runner }
    }
}

} // verus!
