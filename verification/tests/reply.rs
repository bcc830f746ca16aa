use madproxy::config::{Config, RoutingMode};
use madproxy::reply::{
    disconnect_json, disconnect_json_from_literal, reply_packet, status_json,
    status_json_from_literals,
};

#[test]
fn disconnect_document() {
    assert_eq!(disconnect_json("Server is offline"), "{\"text\": \"Server is offline\"}");
    assert_eq!(disconnect_json(""), "{\"text\": \"\"}");
    assert_eq!(disconnect_json("\u{a7}cgone"), "{\"text\": \"\u{a7}cgone\"}");
}

#[test]
fn disconnect_document_escapes_its_message() {
    assert_eq!(disconnect_json("\""), "{\"text\": \"\\\"\"}");
    assert_eq!(disconnect_json("\\"), "{\"text\": \"\\\\\"}");
    assert_eq!(disconnect_json("a\"b\\c"), "{\"text\": \"a\\\"b\\\\c\"}");
    assert_eq!(disconnect_json("one\ntwo\t\u{1}"), "{\"text\": \"one\\ntwo\\t\\u0001\"}");
    for message in ["\"", "\\", "a\"b\\c", "one\n\ntwo", "\u{a7}b\r\n\u{8}\u{c}\u{1f}\u{7f}/", ""] {
        let value: serde_json::Value = serde_json::from_str(&disconnect_json(message)).unwrap();
        assert_eq!(value["text"], message);
        assert_eq!(value.as_object().unwrap().len(), 1);
    }
}

#[test]
fn disconnect_document_around_a_literal() {
    assert_eq!(disconnect_json_from_literal("\"bye\""), "{\"text\": \"bye\"}");
    assert_eq!(disconnect_json_from_literal(""), "{\"text\": }");
}

#[test]
fn disconnect_document_is_json() {
    let value: serde_json::Value = serde_json::from_str(&disconnect_json("Invalid Address")).unwrap();
    assert_eq!(value["text"], "Invalid Address");
    assert_eq!(value.as_object().unwrap().len(), 1);
}

#[test]
fn status_document() {
    assert_eq!(
        status_json("proxy", "hello"),
        "{\"version\":{\"name\":\"proxy\",\"protocol\":-1},\"players\":{\"max\":0,\"online\":0,\"sample\":[]},\"description\":{\"text\":\"hello\"}}"
    );
}

#[test]
fn status_document_escapes_its_strings() {
    let document = status_json("a\"b\\c", "line one\nline two\t\u{1}\u{a7}7");
    assert_eq!(
        document,
        "{\"version\":{\"name\":\"a\\\"b\\\\c\",\"protocol\":-1},\"players\":{\"max\":0,\"online\":0,\"sample\":[]},\"description\":{\"text\":\"line one\\nline two\\t\\u0001\u{a7}7\"}}"
    );
    let value: serde_json::Value = serde_json::from_str(&document).unwrap();
    assert_eq!(value["version"]["name"], "a\"b\\c");
    assert_eq!(value["version"]["protocol"], -1);
    assert_eq!(value["players"]["max"], 0);
    assert_eq!(value["players"]["online"], 0);
    assert_eq!(value["players"]["sample"].as_array().unwrap().len(), 0);
    assert_eq!(value["description"]["text"], "line one\nline two\t\u{1}\u{a7}7");
}

#[test]
fn status_document_around_literals() {
    assert_eq!(
        status_json_from_literals("\"n\"", "\"t\""),
        "{\"version\":{\"name\":\"n\",\"protocol\":-1},\"players\":{\"max\":0,\"online\":0,\"sample\":[]},\"description\":{\"text\":\"t\"}}"
    );
    assert_eq!(
        status_json_from_literals("", ""),
        "{\"version\":{\"name\":,\"protocol\":-1},\"players\":{\"max\":0,\"online\":0,\"sample\":[]},\"description\":{\"text\":}}"
    );
}

#[test]
fn reply_packet_frames_the_document() {
    let document = disconnect_json("bye");
    assert_eq!(document.len(), 15);
    let packet = reply_packet(&document);
    assert_eq!(&packet[..3], &[17, 0, 15]);
    assert_eq!(&packet[3..], document.as_bytes());
    assert_eq!(reply_packet(""), vec![2, 0, 0]);
}

#[test]
fn default_settings() {
    let config = Config::default();
    assert_eq!(config.listen_addr, "0.0.0.0:25565");
    assert_eq!(config.get_listen_addr(), "0.0.0.0:25565");
    assert_eq!(config.unknown_host.kick_message, "\u{a7}bRust Minecraft Proxy\n\n\u{a7}cInvalid Address");
    assert_eq!(
        config.unknown_host.motd.text,
        "\u{a7}cUnknown host!\n\u{a7}7Please use a valid address to connect."
    );
    assert_eq!(config.unknown_host.motd.protocol_name, "\u{a7}crust-minecraft-proxy");
    assert_eq!(config.offline_server.kick_message, "\u{a7}bRust Minecraft Proxy\n\n\u{a7}cServer is offline");
    assert_eq!(
        config.offline_server.starting_message,
        "\u{a7}bRust Minecraft Proxy\n\n\u{a7}eServer is starting..."
    );
    assert_eq!(config.offline_server.motd.text, "\u{a7}cServer is offline!\n\u{a7}7Please try again later.");
    assert_eq!(config.offline_server.motd.protocol_name, "\u{a7}cServer Offline");
    assert_eq!(config.backend_server, "212.87.213.125");
    assert_eq!(config.port_range.start, 25565);
    assert_eq!(config.port_range.end, 25575);
    assert!(!config.auto_start);
    assert_eq!(config.panel_link, "");
    assert_eq!(config.api_key, "");
}

#[test]
fn kick_documents_of_the_settings() {
    let mut config = Config::default();
    config.unknown_host.kick_message = "no such host".to_string();
    config.offline_server.kick_message = "offline".to_string();
    config.offline_server.starting_message = "starting".to_string();
    assert_eq!(config.get_unknown_host_kick_msg(), "{\"text\": \"no such host\"}");
    assert_eq!(config.get_offline_server_kick_msg(), "{\"text\": \"offline\"}");
    assert_eq!(config.get_offline_server_starting_msg(), "{\"text\": \"starting\"}");
    let config = Config::default();
    assert_eq!(
        config.get_unknown_host_kick_msg(),
        "{\"text\": \"\u{a7}bRust Minecraft Proxy\\n\\n\u{a7}cInvalid Address\"}"
    );
    let kick: serde_json::Value = serde_json::from_str(&config.get_unknown_host_kick_msg()).unwrap();
    assert_eq!(kick["text"], config.unknown_host.kick_message.as_str());
    let offline: serde_json::Value =
        serde_json::from_str(&config.get_offline_server_kick_msg()).unwrap();
    assert_eq!(offline["text"], config.offline_server.kick_message.as_str());
    let starting: serde_json::Value =
        serde_json::from_str(&config.get_offline_server_starting_msg()).unwrap();
    assert_eq!(starting["text"], config.offline_server.starting_message.as_str());
}

#[test]
fn kick_documents_with_quotes_in_the_settings() {
    let mut config = Config::default();
    config.unknown_host.kick_message = "\"".to_string();
    config.offline_server.kick_message = "say \"bye\" \\ now".to_string();
    config.offline_server.starting_message = "\\\"".to_string();
    assert_eq!(config.get_unknown_host_kick_msg(), "{\"text\": \"\\\"\"}");
    assert_eq!(
        config.get_offline_server_kick_msg(),
        "{\"text\": \"say \\\"bye\\\" \\\\ now\"}"
    );
    assert_eq!(config.get_offline_server_starting_msg(), "{\"text\": \"\\\\\\\"\"}");
}

#[test]
fn status_documents_of_the_settings() {
    let config = Config::default();
    assert_eq!(
        config.get_unknown_host_motd(),
        "{\"version\":{\"name\":\"\u{a7}crust-minecraft-proxy\",\"protocol\":-1},\"players\":{\"max\":0,\"online\":0,\"sample\":[]},\"description\":{\"text\":\"\u{a7}cUnknown host!\\n\u{a7}7Please use a valid address to connect.\"}}"
    );
    assert_eq!(
        config.get_offline_server_motd_not_starting("s1"),
        "{\"version\":{\"name\":\"\u{a7}cServer Offline\",\"protocol\":-1},\"players\":{\"max\":0,\"online\":0,\"sample\":[]},\"description\":{\"text\":\"\u{a7}cServer is offline!\\n\u{a7}7Please try again later.\"}}"
    );
    assert_eq!(
        config.get_offline_server_motd_not_starting("s1"),
        config.get_offline_server_motd_not_starting("")
    );
}

#[test]
fn listeners_of_the_port_range() {
    let mut config = Config::default();
    let listeners = config.port_span_listeners();
    assert_eq!(listeners.len(), 11);
    for (k, listener) in listeners.iter().enumerate() {
        let port = 25565 + k as u16;
        assert_eq!(listener.address, format!("0.0.0.0:{}", port));
        assert_eq!(listener.mode, RoutingMode::PortSpan(port));
    }
    config.port_range.start = 65534;
    config.port_range.end = 65535;
    let listeners = config.port_span_listeners();
    assert_eq!(listeners.len(), 2);
    assert_eq!(listeners[0].address, "0.0.0.0:65534");
    assert_eq!(listeners[1].address, "0.0.0.0:65535");
    assert_eq!(listeners[1].mode, RoutingMode::PortSpan(65535));
    config.port_range.start = 0;
    config.port_range.end = 0;
    let listeners = config.port_span_listeners();
    assert_eq!(listeners.len(), 1);
    assert_eq!(listeners[0].address, "0.0.0.0:0");
    config.port_range.start = 100;
    config.port_range.end = 99;
    assert!(config.port_span_listeners().is_empty());
}

#[test]
fn listeners_with_and_without_a_table() {
    let mut config = Config::default();
    config.listen_addr = "127.0.0.1:7777".to_string();
    let with = config.listeners(true);
    assert_eq!(with.len(), 1);
    assert_eq!(with[0].address, "127.0.0.1:7777");
    assert_eq!(with[0].mode, RoutingMode::Hostname);
    let without = config.listeners(false);
    assert_eq!(without.len(), 11);
    assert_eq!(without[0].address, "0.0.0.0:25565");
    assert_eq!(without[0].mode, RoutingMode::PortSpan(25565));
    assert_eq!(without[10].address, "0.0.0.0:25575");
    assert_eq!(without[10].mode, RoutingMode::PortSpan(25575));
    config.port_range.start = 2;
    config.port_range.end = 1;
    assert!(config.listeners(false).is_empty());
    assert_eq!(config.listeners(true).len(), 1);
}

#[test]
fn listener_for_hostnames() {
    let mut config = Config::default();
    config.listen_addr = "127.0.0.1:7777".to_string();
    let listener = config.hostname_listener();
    assert_eq!(listener.address, "127.0.0.1:7777");
    assert_eq!(listener.mode, RoutingMode::Hostname);
}

#[test]
fn backend_of_a_port() {
    let mut config = Config::default();
    assert_eq!(config.backend_for_port(25570), "212.87.213.125:25570");
    config.backend_server = "backend.internal".to_string();
    assert_eq!(config.backend_for_port(9), "backend.internal:9");
    assert_eq!(config.backend_for_port(0), "backend.internal:0");
    assert_eq!(config.backend_for_port(65535), "backend.internal:65535");
    assert_eq!(config.backend_for_port(10000), "backend.internal:10000");
}
