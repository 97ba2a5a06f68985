//! Configuration shapes handed to the connection-setup collaborator.
//!
//! The projection core itself takes no configuration; these structs only
//! describe what the surrounding database-connection code needs.  Loading
//! and saving them is file I/O and lives outside the verified library.

use vstd::prelude::*;

verus! {

/// Where and how to reach the database server.
pub struct DbServerConfig {
    pub host: String,
    pub port: u16,
    pub user: String,
    pub password: String,
    pub database: String,
}

/// Fixed label fields printed alongside each serial number.
pub struct LabelFmtConfig {
    pub desc: String,
    pub supplier: String,
    pub remark: String,
    pub coo: String,
    pub envirattr: String,
}

/// The whole application configuration.
pub struct AppConfig {
    pub dbserver: DbServerConfig,
    pub labelfmt: LabelFmtConfig,
}

impl Default for DbServerConfig {
    /// An empty server configuration: blank strings and port zero.
    fn default() -> (r: Self)
        ensures
            r.host@ =~= Seq::<char>::empty(),
            r.port == 0,
            r.user@ =~= Seq::<char>::empty(),
            r.password@ =~= Seq::<char>::empty(),
            r.database@ =~= Seq::<char>::empty(),
    {
        DbServerConfig {
            host: String::new(),
            port: 0,
            user: String::new(),
            password: String::new(),
            database: String::new(),
        }
    }
}

impl Default for LabelFmtConfig {
    /// The label fields used when no configuration file exists yet.
    fn default() -> (r: Self)
        ensures
            r.desc@ == "贴片普通晶体振荡器"@,
            r.supplier@ == "鸿星科技（集团）股份有限公司"@,
            r.remark@ =~= Seq::<char>::empty(),
            r.coo@ == "CN"@,
            r.envirattr@ == "HSF-S"@,
    {
        LabelFmtConfig {
            desc: String::from_str("贴片普通晶体振荡器"),
            supplier: String::from_str("鸿星科技（集团）股份有限公司"),
            remark: String::new(),
            coo: String::from_str("CN"),
            envirattr: String::from_str("HSF-S"),
        }
    }
}

impl Default for AppConfig {
    /// An empty server part and the stock label part.
    fn default() -> (r: Self)
        ensures
            r.dbserver.host@ =~= Seq::<char>::empty(),
            r.dbserver.port == 0,
            r.labelfmt.coo@ == "CN"@,
    {
        AppConfig { dbserver: DbServerConfig::default(), labelfmt: LabelFmtConfig::default() }
    }
}

} // verus!
