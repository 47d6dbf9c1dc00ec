//! The plain data the HTTP layer carries, and the configuration.

use auth_core::config::{AppConfig, DatabaseConfig, MailerConfig, ServerConfig};
use auth_core::cookie::{build_cookie, extract_cookie_value};
use auth_core::views::{AuthService, BadPassword, HxRedirect};

fn sample_config() -> ServerConfig {
    ServerConfig {
        database: DatabaseConfig {
            url: String::from("postgres://localhost/app"),
        },
        app: AppConfig {
            app_name: String::from("My App"),
            origin: String::from("http://localhost:3000"),
            bind_address: String::from("0.0.0.0:3000"),
            jwt_secret: String::from("SECRET-REDACTED"),
        },
        mailer: MailerConfig {
            host: String::from("smtp.example.com"),
            username: String::from("mailer"),
            password: String::from("SECRET-REDACTED"),
            port: 587,
            sender_email: String::from("noreply@example.com"),
            sender_name: String::from("No Reply"),
        },
    }
}

#[test]
fn full_sender_name_joins_app_and_sender() {
    let config = sample_config();
    assert_eq!(config.full_sender_name(), "My App - No Reply");
}

#[test]
fn hx_redirect_keeps_its_target() {
    let r = HxRedirect::to(String::from("/dashboard"));
    assert_eq!(r.to, "/dashboard");
}

#[test]
fn auth_service_default_is_the_marker() {
    assert_eq!(AuthService::default(), AuthService {});
}

#[test]
fn bad_password_carries_the_flags() {
    let b = BadPassword {
        has_uppercase: false,
        has_lowercase: true,
        has_digit: false,
        min_length: 8,
        long_enough: false,
    };
    assert!(!b.has_uppercase && b.has_lowercase && !b.has_digit);
    assert_eq!(b.min_length, 8);
    assert!(!b.long_enough);
}

#[test]
fn cookie_building_and_extraction_are_inverse() {
    let c = build_cookie("some.token.value", false);
    assert_eq!(c, "token=some.token.value; Path=/; HttpOnly");
    let c = build_cookie("some.token.value", true);
    assert_eq!(c, "token=some.token.value; Path=/; HttpOnly; Secure");
    assert_eq!(
        extract_cookie_value(&c, "token").as_deref(),
        Some("some.token.value")
    );
}

#[test]
fn extraction_tolerates_tabs_and_spaces() {
    assert_eq!(
        extract_cookie_value("a=1;\ttoken=xyz\t; b=2", "token").as_deref(),
        Some("xyz")
    );
    assert_eq!(
        extract_cookie_value("   token=v", "token").as_deref(),
        Some("v")
    );
}
