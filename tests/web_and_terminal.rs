use esp_hal_app_framework::serial_buffer::resync_length;
use esp_hal_app_framework::terminal::Terminal;
use esp_hal_app_framework::web_urls::{ipv4_string, redirect_url_string, webapp_urls};

#[test]
fn address_url_with_default_port() {
    let (ip, name) = webapp_urls(false, 80, false, None, Some((192, 168, 4, 1)), true);
    assert_eq!(ip, "http://192.168.4.1");
    assert_eq!(name.as_deref(), Some("http://config"));
}

#[test]
fn address_url_with_other_port_and_mdns_name() {
    let (ip, name) = webapp_urls(true, 8443, true, Some("kitchen"), Some((10, 0, 0, 255)), false);
    assert_eq!(ip, "https://10.0.0.255:8443");
    assert_eq!(name.as_deref(), Some("https://kitchen.local:8443"));
}

#[test]
fn no_name_url_without_mdns() {
    let (ip, name) = webapp_urls(true, 443, false, Some("kitchen"), Some((1, 2, 3, 4)), false);
    assert_eq!(ip, "https://1.2.3.4");
    assert!(name.is_none());
}

#[test]
fn not_connected_text() {
    let (ip, name) = webapp_urls(false, 80, true, Some("x"), None, false);
    assert_eq!(ip, "N/A - WiFi not connected");
    assert!(name.is_none());
}

#[test]
fn redirect_and_dotted_address() {
    assert_eq!(ipv4_string((0, 0, 0, 0)), "0.0.0.0");
    assert_eq!(redirect_url_string(true, (192, 168, 1, 20)), "https://192.168.1.20");
}

#[test]
fn resync_drops_through_first_terminator() {
    assert_eq!(resync_length(&[1, 2, 0x0A, 3]), (3, false));
    assert_eq!(resync_length(&[1, 0xE6, 0x0A, 0x0A]), (3, true));
    assert_eq!(resync_length(&[1, 2, 3]), (3, false));
    assert_eq!(resync_length(&[0x0A]), (1, false));
}

#[test]
fn terminal_fans_out_to_live_subscribers() {
    let mut t = Terminal::new();
    let a = t.subscribe().unwrap();
    let b = t.subscribe().unwrap();
    let c = t.subscribe().unwrap();
    t.unsubscribe(b);
    let d = t.add_text_new_line("hello");
    let got: Vec<(u64, String)> = d.into_iter().map(|x| (x.subscriber, x.text)).collect();
    assert_eq!(
        got,
        vec![(a, "\n".to_string()), (c, "\n".to_string()), (a, "hello".to_string()), (c, "hello".to_string())]
    );
    let same = t.add_text_same_line(".");
    assert_eq!(same.len(), 2);
    assert_eq!(t.notify_add_text("x").len(), 2);
}

#[test]
fn terminal_without_subscribers_delivers_nothing() {
    let t = Terminal::new();
    assert!(t.add_text_new_line("x").is_empty());
}
