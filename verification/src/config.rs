//! Service configuration: resolution of the six settings from their
//! textual sources, with the required/optional split and the defaults.

use vstd::prelude::*;
use crate::text::{dec_of, dec_val, is_u16_numeral, parse_u16, u64_to_dec, unsigned_digits};

verus! {

/// The resolved configuration of the service.
#[derive(Debug, Clone)]
pub struct Config {
    pub spanner_emulator_host: Option<String>,
    pub spanner_project: String,
    pub spanner_instance: String,
    pub spanner_database: String,
    pub service_port: u16,
    pub service_host: String,
}

impl Config {
    /// Resolves the configuration from the optional raw values of its
    /// six settings. The project, instance and database are required;
    /// the port defaults to 3000 and must parse as a port number; the
    /// bind host defaults to `0.0.0.0`; the emulator host passes
    /// through.
    pub fn resolve(
        spanner_emulator_host: Option<String>,
        spanner_project: Option<String>,
        spanner_instance: Option<String>,
        spanner_database: Option<String>,
        service_port: Option<String>,
        service_host: Option<String>,
    ) -> (r: Result<Config, String>)
        ensures
            r is Ok <==> spanner_project is Some && spanner_instance is Some && spanner_database
                is Some && (service_port is Some ==> is_u16_numeral(service_port->0@)),
            spanner_project is None ==> r is Err && r->Err_0@
                == "SPANNER_PROJECT environment variable is required"@,
            spanner_project is Some && spanner_instance is None ==> r is Err && r->Err_0@
                == "SPANNER_INSTANCE environment variable is required"@,
            spanner_project is Some && spanner_instance is Some && spanner_database is None ==> r
                is Err && r->Err_0@ == "SPANNER_DATABASE environment variable is required"@,
            spanner_project is Some && spanner_instance is Some && spanner_database is Some
                && service_port is Some && !is_u16_numeral(service_port->0@) ==> r is Err
                && r->Err_0@ == "SERVICE_PORT must be a valid port number (0-65535)"@,
            r is Ok ==> {
                &&& r->Ok_0.spanner_emulator_host == spanner_emulator_host
                &&& r->Ok_0.spanner_project == spanner_project->0
                &&& r->Ok_0.spanner_instance == spanner_instance->0
                &&& r->Ok_0.spanner_database == spanner_database->0
                &&& r->Ok_0.service_port as int == match service_port {
                    Some(p) => dec_val(unsigned_digits(p@)),
                    None => 3000int,
                }
                &&& r->Ok_0.service_host@ == match service_host {
                    Some(h) => h@,
                    None => "0.0.0.0"@,
                }
            },
    {
        let project = match spanner_project {
            Some(p) => p,
            None => {
                return Err(String::from_str("SPANNER_PROJECT environment variable is required"));
            },
        };
        let instance = match spanner_instance {
            Some(i) => i,
            None => {
                return Err(String::from_str("SPANNER_INSTANCE environment variable is required"));
            },
        };
        let database = match spanner_database {
            Some(d) => d,
            None => {
                return Err(String::from_str("SPANNER_DATABASE environment variable is required"));
            },
        };
        let port: u16 = match &service_port {
            Some(p) => {
                match parse_u16(p.as_str()) {
                    Some(v) => v,
                    None => {
                        return Err(
                            String::from_str("SERVICE_PORT must be a valid port number (0-65535)"),
                        );
                    },
                }
            },
            None => 3000,
        };
        let host = match service_host {
            Some(h) => h,
            None => String::from_str("0.0.0.0"),
        };
        Ok(
            Config {
                spanner_emulator_host,
                spanner_project: project,
                spanner_instance: instance,
                spanner_database: database,
                service_port: port,
                service_host: host,
            },
        )
    }

    /// The lines a startup log reports, one per setting.
    pub fn log_startup(&self) -> (r: Vec<String>)
        ensures
            r@.len() == 6,
            r@[0]@ == "Configuration loaded:"@,
            r@[1]@ == "  Spanner emulator: "@ + match self.spanner_emulator_host {
                Some(h) => h@,
                None => "disabled (using production)"@,
            },
            r@[2]@ == "  Spanner project: "@ + self.spanner_project@,
            r@[3]@ == "  Spanner instance: "@ + self.spanner_instance@,
            r@[4]@ == "  Spanner database: "@ + self.spanner_database@,
            r@[5]@ == "  Service listening on: "@ + self.service_host@ + ":"@ + dec_of(
                self.service_port as int,
            ),
    {
        let mut lines: Vec<String> = Vec::new();
        lines.push(String::from_str("Configuration loaded:"));
        let mut emulator = String::from_str("  Spanner emulator: ");
        match &self.spanner_emulator_host {
            Some(h) => emulator.append(h.as_str()),
            None => emulator.append("disabled (using production)"),
        }
        lines.push(emulator);
        let mut project = String::from_str("  Spanner project: ");
        project.append(self.spanner_project.as_str());
        lines.push(project);
        let mut instance = String::from_str("  Spanner instance: ");
        instance.append(self.spanner_instance.as_str());
        lines.push(instance);
        let mut database = String::from_str("  Spanner database: ");
        database.append(self.spanner_database.as_str());
        lines.push(database);
        let mut listen = String::from_str("  Service listening on: ");
        listen.append(self.bind_addr().as_str());
        lines.push(listen);
        lines
    }

    /// The address the service binds: `host:port`.
    pub fn bind_addr(&self) -> (r: String)
        ensures
            r@ == self.service_host@ + ":"@ + dec_of(self.service_port as int),
    {
        let mut addr = self.service_host.clone();
        addr.append(":");
        let port = u64_to_dec(self.service_port as u64);
        addr.append(port.as_str());
        addr
    }
}

} // verus!
