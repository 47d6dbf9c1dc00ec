//! The server's configuration, as plain values: reading it off disk is
//! the caller's business.

use vstd::prelude::*;
use vstd::string::StringExecFns;

verus! {

/// Where the database lives.
pub struct DatabaseConfig {
    pub url: String,
}

/// The application's own knobs, the signing secret among them.
pub struct AppConfig {
    pub app_name: String,
    pub origin: String,
    pub bind_address: String,
    pub jwt_secret: String,
}

/// The outbound-mail account.
pub struct MailerConfig {
    pub host: String,
    pub username: String,
    pub password: String,
    pub port: u16,
    pub sender_email: String,
    pub sender_name: String,
}

/// Everything the server is started with.
pub struct ServerConfig {
    pub database: DatabaseConfig,
    pub app: AppConfig,
    pub mailer: MailerConfig,
}

impl ServerConfig {
    /// The sender name outbound mail carries: the application's name,
    /// a dash, and the configured sender name.
    pub fn full_sender_name(&self) -> (r: String)
        ensures
            r@ == self.app.app_name@ + " - "@ + self.mailer.sender_name@,
    {
        let mut s = self.app.app_name.clone();
        s.append(" - ");
        s.append(self.mailer.sender_name.as_str());
        s
    }
}

} // verus!
