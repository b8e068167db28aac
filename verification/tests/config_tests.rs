use dataingester::config::{default_logins, hash_password, hex_string, Context, Login, PerfConfig};
use dataingester::http::check_login;
use dataingester::writers::{
    InfluxDB, InfluxDB2DataWriter, InfluxDB3, InfluxDB3DataWriter, QuestDB, QuestDBDataWriter,
};

#[test]
fn context_keeps_its_paths() {
    let ctx = Context::new(
        String::from("dataingester.toml"),
        String::from("./"),
        String::from("log.txt"),
    );
    assert_eq!(ctx.config_file_path, "dataingester.toml");
    assert_eq!(ctx.working_dir, "./");
    assert_eq!(ctx.log_file_path, "log.txt");
}

#[test]
fn perf_config_defaults() {
    let p = PerfConfig::default();
    assert!(!p.enabled);
    assert_eq!(p.perf_addr, "0.0.0.0:4000");
}

#[test]
fn password_hash_is_sha256_of_password_dollar_salt() {
    let d = hash_password("pw", "salt");
    let expected: [u8; 32] = [
        159, 103, 242, 45, 159, 43, 5, 102, 104, 20, 253, 188, 19, 188, 174, 54, 183, 170, 128,
        188, 65, 91, 80, 176, 33, 23, 49, 146, 143, 159, 151, 229,
    ];
    assert_eq!(d.as_slice(), expected.as_slice());
    // per-byte lowercase hex without zero padding
    assert_eq!(
        hex_string(&d),
        "9f67f22d9f2b5666814fdbc13bcae36b7aa80bc415b50b0211731928f9f97e5"
    );
}

#[test]
fn hex_rendering_is_unpadded() {
    assert_eq!(hex_string(&vec![0u8, 1, 15, 16, 255]), "01f10ff");
    assert_eq!(hex_string(&vec![]), "");
}

#[test]
fn default_logins_carry_tagged_secrets() {
    let logins = default_logins("2024-01-01 00:00:00", "somehost");
    assert_eq!(logins.len(), 2);
    assert_eq!(logins[0].username, "myuserA");
    assert_eq!(logins[1].username, "myuserB");
    assert!(logins[0].password.ends_with("_A"));
    assert!(logins[1].password.ends_with("_B"));
    // both passwords share the digest part
    let a = &logins[0].password[..logins[0].password.len() - 2];
    let b = &logins[1].password[..logins[1].password.len() - 2];
    assert_eq!(a, b);
    assert!(!a.is_empty());
}

#[test]
fn login_check_is_case_insensitive_on_the_user_name() {
    let logins = vec![
        Login { username: String::from("MyUserA"), password: String::from("secret") },
        Login { username: String::from("other"), password: String::from("pw2") },
    ];
    assert!(check_login(&logins, "myusera", "secret"));
    assert!(check_login(&logins, "MYUSERA", "secret"));
    assert!(check_login(&logins, "other", "pw2"));
    assert!(!check_login(&logins, "myusera", "wrong"));
    assert!(!check_login(&logins, "nobody", "secret"));
    // passwords are matched exactly, never case-folded
    assert!(!check_login(&logins, "myusera", "SECRET"));
}

#[test]
fn writer_constructors_keep_their_settings() {
    let i2 = InfluxDB2DataWriter::new(InfluxDB {
        url: String::from("http://db:8086"),
        ..InfluxDB::default()
    });
    assert_eq!(i2.settings.url, "http://db:8086");
    assert_eq!(i2.settings.bucket, "mypassword");

    let i3 = InfluxDB3DataWriter::new(InfluxDB3::default());
    assert_eq!(i3.settings.database, "mydb");

    let q = QuestDBDataWriter::new(QuestDB::default());
    assert!(q.settings.use_https);
    assert_eq!(q.settings.addr, "");
}
