use port_scanner::services::get_service_name;

#[test]
fn known_services() {
    assert_eq!(get_service_name(21).as_deref(), Some("FTP"));
    assert_eq!(get_service_name(22).as_deref(), Some("SSH"));
    assert_eq!(get_service_name(80).as_deref(), Some("HTTP"));
    assert_eq!(get_service_name(443).as_deref(), Some("HTTPS"));
    assert_eq!(get_service_name(3306).as_deref(), Some("MySQL"));
    assert_eq!(get_service_name(5432).as_deref(), Some("PostgreSQL"));
    assert_eq!(get_service_name(6379).as_deref(), Some("Redis"));
    assert_eq!(get_service_name(8080).as_deref(), Some("HTTP Proxy"));
    assert_eq!(get_service_name(27017).as_deref(), Some("MongoDB"));
}

#[test]
fn unknown_ports_have_no_service() {
    assert_eq!(get_service_name(0), None);
    assert_eq!(get_service_name(24), None);
    assert_eq!(get_service_name(65535), None);
}

#[test]
fn table_has_twenty_one_entries() {
    let named = (0..=u16::MAX).filter(|p| get_service_name(*p).is_some()).count();
    assert_eq!(named, 21);
}
