//! The table of well-known services, looked up by port number.
use std::collections::HashMap;
use vstd::prelude::*;

verus! {

broadcast use {vstd::std_specs::hash::group_hash_axioms, vstd::string::group_string_axioms};

/// The ports that the scanner can name, with the name of each.
pub open spec fn service_table() -> Map<u16, &'static str> {
    map![
        21u16 => "FTP",
        22u16 => "SSH",
        23u16 => "Telnet",
        25u16 => "SMTP",
        53u16 => "DNS",
        80u16 => "HTTP",
        110u16 => "POP3",
        143u16 => "IMAP",
        443u16 => "HTTPS",
        465u16 => "SMTPS",
        587u16 => "SMTP-SUB",
        993u16 => "IMAPS",
        995u16 => "POP3S",
        3306u16 => "MySQL",
        3389u16 => "RDP",
        5432u16 => "PostgreSQL",
        5900u16 => "VNC",
        6379u16 => "Redis",
        8080u16 => "HTTP Proxy",
        8443u16 => "HTTPS-ALT",
        27017u16 => "MongoDB"
    ]
}

/// Looks up the name of the service that conventionally listens on `port`.
pub fn get_service_name(port: u16) -> (res: Option<String>)
    ensures
        match res {
            Some(name) => service_table().contains_key(port) && name@ == service_table()[port]@,
            None => !service_table().contains_key(port),
        },
{
    let mut services: HashMap<u16, &'static str> = HashMap::new();
    services.insert(21, "FTP");
    services.insert(22, "SSH");
    services.insert(23, "Telnet");
    services.insert(25, "SMTP");
    services.insert(53, "DNS");
    services.insert(80, "HTTP");
    services.insert(110, "POP3");
    services.insert(143, "IMAP");
    services.insert(443, "HTTPS");
    services.insert(465, "SMTPS");
    services.insert(587, "SMTP-SUB");
    services.insert(993, "IMAPS");
    services.insert(995, "POP3S");
    services.insert(3306, "MySQL");
    services.insert(3389, "RDP");
    services.insert(5432, "PostgreSQL");
    services.insert(5900, "VNC");
    services.insert(6379, "Redis");
    services.insert(8080, "HTTP Proxy");
    services.insert(8443, "HTTPS-ALT");
    services.insert(27017, "MongoDB");
    assert(services@ == service_table());
    match services.get(&port) {
        Some(name) => Some((*name).to_string()),
        None => None,
    }
}

/// The well-known ports and their services: a port has a name exactly when it
/// is one of these twenty-one, and each has the name listed beside it
/// (21 FTP, 22 SSH, 110 POP3, 143 IMAP, 443 HTTPS, 8080 HTTP Proxy, ...).
pub proof fn lemma_service_table_entries(port: u16)
    ensures
        service_table().contains_key(port) <==> (port == 21 || port == 22 || port == 23 || port == 25 || port == 53 || port == 80
            || port == 110 || port == 143 || port == 443 || port == 465 || port == 587
            || port == 993 || port == 995 || port == 3306 || port == 3389 || port == 5432
            || port == 5900 || port == 6379 || port == 8080 || port == 8443 || port == 27017),
        port == 21 ==> service_table()[port]@ == "FTP"@,
        port == 22 ==> service_table()[port]@ == "SSH"@,
        port == 23 ==> service_table()[port]@ == "Telnet"@,
        port == 25 ==> service_table()[port]@ == "SMTP"@,
        port == 53 ==> service_table()[port]@ == "DNS"@,
        port == 80 ==> service_table()[port]@ == "HTTP"@,
        port == 110 ==> service_table()[port]@ == "POP3"@,
        port == 143 ==> service_table()[port]@ == "IMAP"@,
        port == 443 ==> service_table()[port]@ == "HTTPS"@,
        port == 465 ==> service_table()[port]@ == "SMTPS"@,
        port == 587 ==> service_table()[port]@ == "SMTP-SUB"@,
        port == 993 ==> service_table()[port]@ == "IMAPS"@,
        port == 995 ==> service_table()[port]@ == "POP3S"@,
        port == 3306 ==> service_table()[port]@ == "MySQL"@,
        port == 3389 ==> service_table()[port]@ == "RDP"@,
        port == 5432 ==> service_table()[port]@ == "PostgreSQL"@,
        port == 5900 ==> service_table()[port]@ == "VNC"@,
        port == 6379 ==> service_table()[port]@ == "Redis"@,
        port == 8080 ==> service_table()[port]@ == "HTTP Proxy"@,
        port == 8443 ==> service_table()[port]@ == "HTTPS-ALT"@,
        port == 27017 ==> service_table()[port]@ == "MongoDB"@,
{
}

} // verus!
