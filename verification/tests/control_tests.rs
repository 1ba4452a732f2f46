use ren_desktop::config::ProxyConfig;
use ren_desktop::control::{
    proxy_url, public_url_in_output, tunelo_binary_for, TargetOs, tunnel_read_timed_out, tunnel_step, TunnelRead, TunnelStep, relay_address, tunelo_binary_name, tunelo_download_url, Controller,
};

fn config_with_key(key: &str) -> ProxyConfig {
    let mut c = ProxyConfig::default();
    c.api_key = key.to_string();
    c
}

#[test]
fn proxy_cannot_start_without_key_or_twice() {
    let mut c = Controller::new();
    assert_eq!(c.check_start_proxy(&config_with_key("")), Err("API key not configured".to_string()));
    assert_eq!(c.check_start_proxy(&config_with_key("enc")), Ok(()));
    c.proxy_started();
    assert!(c.proxy_status());
    assert_eq!(c.check_start_proxy(&config_with_key("enc")), Err("Proxy already running".to_string()));
}

#[test]
fn stop_proxy_also_stops_the_tunnel() {
    let mut c = Controller::new();
    c.proxy_started();
    assert_eq!(c.tunnel_started(Some("https://a.ren.im".to_string())), Ok("https://a.ren.im".to_string()));
    assert_eq!(c.tunnel_status(), Some("https://a.ren.im".to_string()));
    let (tunnel, result) = c.stop_proxy();
    assert_eq!(tunnel, Some("https://a.ren.im".to_string()));
    assert_eq!(result, Ok(()));
    assert!(!c.proxy_status());
    assert_eq!(c.tunnel_status(), None);
    assert_eq!(c.stop_proxy(), (None, Err("Proxy not running".to_string())));
}

#[test]
fn tunnel_start_rules() {
    let mut c = Controller::new();
    assert_eq!(c.check_start_tunnel(), Ok(()));
    assert_eq!(c.tunnel_started(None), Err("Timeout waiting for tunnel URL".to_string()));
    assert_eq!(c.tunnel_started(Some(String::new())), Err("Failed to get public URL from tunelo".to_string()));
    assert_eq!(c.tunnel_status(), None);
    assert_eq!(c.tunnel_started(Some("u".to_string())), Ok("u".to_string()));
    assert_eq!(c.check_start_tunnel(), Err("Tunnel already running".to_string()));
    assert_eq!(c.stop_tunnel(), Ok("u".to_string()));
    assert_eq!(c.stop_tunnel(), Err("Tunnel not running".to_string()));
}

#[test]
fn proxy_url_text() {
    assert_eq!(proxy_url(Some("192.168.1.5".to_string()), 8090), "http://192.168.1.5:8090/v1");
    assert_eq!(proxy_url(None, 0), "http://localhost:0/v1");
    assert_eq!(proxy_url(None, 65535), "http://localhost:65535/v1");
}

#[test]
fn tunnel_texts() {
    assert_eq!(relay_address("relay.ren.im"), "relay.ren.im:4433");
    assert_eq!(tunelo_binary_name("linux", "amd64", false), "tunelo-linux-amd64");
    assert_eq!(tunelo_binary_name("windows", "amd64", true), "tunelo-windows-amd64.exe");
    assert_eq!(tunelo_download_url("tunelo-macos-arm64"), "https://ren.im/tunelo/tunelo-macos-arm64");
}

#[test]
fn public_url_is_read_from_output() {
    assert_eq!(public_url_in_output(b"starting\nPublic URL: https://x.ren.im \nmore"), "https://x.ren.im");
    assert_eq!(public_url_in_output(b"Public URL:a Public URL:b"), "a");
    assert_eq!(public_url_in_output(b"nothing here\n"), "");
    assert_eq!(public_url_in_output(b"Public URL:   \nPublic URL: late"), "");
    assert_eq!(public_url_in_output(&[0xff, b'P']), "");
}

fn stopped_with(step: TunnelStep) -> Option<String> {
    match step {
        TunnelStep::Stop(u) => Some(u),
        TunnelStep::ReadAgain => None,
    }
}

#[test]
fn tunnel_reader_steps() {
    assert_eq!(stopped_with(tunnel_step(TunnelRead::End)), Some(String::new()));
    assert_eq!(stopped_with(tunnel_step(TunnelRead::Failed)), Some(String::new()));
    assert_eq!(stopped_with(tunnel_step(TunnelRead::Chunk(b"connecting...\n".to_vec()))), None);
    assert_eq!(stopped_with(tunnel_step(TunnelRead::Chunk(b"Public URL:  \n".to_vec()))), None);
    assert_eq!(
        stopped_with(tunnel_step(TunnelRead::Chunk(b"Public URL: https://t.ren.im\n".to_vec()))),
        Some("https://t.ren.im".to_string())
    );
    assert!(!tunnel_read_timed_out(30_000_000_000));
    assert!(tunnel_read_timed_out(30_000_000_001));
}

#[test]
fn tunnel_binary_per_platform() {
    assert_eq!(tunelo_binary_for(TargetOs::Linux, false), Ok("tunelo-linux-amd64".to_string()));
    assert_eq!(tunelo_binary_for(TargetOs::Linux, true), Ok("tunelo-linux-amd64".to_string()));
    assert_eq!(tunelo_binary_for(TargetOs::MacOs, true), Ok("tunelo-macos-arm64".to_string()));
    assert_eq!(tunelo_binary_for(TargetOs::MacOs, false), Ok("tunelo-macos-amd64".to_string()));
    assert_eq!(tunelo_binary_for(TargetOs::Windows, false), Ok("tunelo-windows-amd64.exe".to_string()));
    assert_eq!(tunelo_binary_for(TargetOs::Other, false), Err("Unsupported platform".to_string()));
}
