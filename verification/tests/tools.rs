use boppo::device::{pairing_request, serial_of_hostname, Browse, BrowseEvent};
use boppo::usb::{
    command_line, find_boppo_port, wifi_line, PortRead, ReadProgress, Response, SerialPortEntry,
    UsbIdentity, BOPPO_USB_VID,
};
use boppo::wasm::{
    after_cargo, after_wasm_opt, asset_ops, cargo_args, package_name, release_path,
    search_after_going_up, search_step, stage_ops, staging_path, start_command, BuildStep, Manifest, SearchStep, StageOp, ToolResult,
    DEVICE_ROOT, TARGET,
};

fn port(name: &str, vid: u16, manufacturer: Option<&str>, product: Option<&str>) -> SerialPortEntry {
    SerialPortEntry {
        port_name: name.to_owned(),
        usb: Some(UsbIdentity {
            vid,
            manufacturer: manufacturer.map(|s| s.to_owned()),
            product: product.map(|s| s.to_owned()),
        }),
    }
}

#[test]
fn the_first_boppo_port_is_found() {
    assert_eq!(BOPPO_USB_VID, 0x303A);
    let ports = vec![
        SerialPortEntry { port_name: "ttyS0".to_owned(), usb: None },
        port("other", 0x1234, Some("Boppo"), Some("Boppo")),
        port("bare", 0x303A, None, Some("ESP32")),
        port("made", 0x303A, Some("The Boppo Company"), None),
        port("named", 0x303A, None, Some("Boppo Tablet")),
    ];
    assert_eq!(find_boppo_port(&ports), Some("made".to_owned()));
    assert_eq!(find_boppo_port(&ports[4..].iter().map(|p| port(
        &p.port_name, 0x303A, None, Some("Boppo Tablet"))).collect()), Some("named".to_owned()));
    assert_eq!(find_boppo_port(&vec![port("x", 0x303A, Some("boppo"), None)]), None);
    assert_eq!(find_boppo_port(&vec![]), None);
}

#[test]
fn console_lines_end_with_a_line_feed() {
    assert_eq!(command_line("ls"), "ls\n");
    assert_eq!(wifi_line("home", Some("pw")), "add_wifi_network 'home' 'pw'\n");
    assert_eq!(wifi_line("home", Some("")), "add_wifi_network 'home'\n");
    assert_eq!(wifi_line("home", None), "add_wifi_network 'home'\n");
}

#[test]
fn a_response_is_complete_after_a_silence() {
    let mut r = Response::new();
    assert_eq!(r.take(PortRead::Bytes(b"hel".to_vec())), ReadProgress::More);
    assert_eq!(r.take(PortRead::Bytes(b"lo\xc3".to_vec())), ReadProgress::More);
    assert_eq!(r.take(PortRead::Bytes(b"\xa9".to_vec())), ReadProgress::More);
    assert_eq!(r.take(PortRead::TimedOut), ReadProgress::Complete);
    assert_eq!(r.text(), "helloé");
    assert_eq!(r.take(PortRead::Bytes(vec![])), ReadProgress::Complete);
    assert_eq!(r.take(PortRead::Failed), ReadProgress::Broken);
    assert_eq!(r.text(), "helloé");
}

#[test]
fn bytes_that_are_no_text_are_replaced() {
    let mut r = Response::new();
    r.take(PortRead::Bytes(b"a\xffb".to_vec()));
    assert_eq!(r.text(), "a\u{fffd}b");
    assert_eq!(Response::new().text(), "");
}

#[test]
fn host_names_give_serials() {
    assert_eq!(serial_of_hostname("boppo-0120001234.local."), "0120001234");
    assert_eq!(serial_of_hostname("boppo-x.local"), "boppo-x.local");
    assert_eq!(serial_of_hostname("printer.local."), "printer.local.");
    assert_eq!(serial_of_hostname("boppo-.local."), "");
}

#[test]
fn browsing_collects_resolved_devices() {
    let mut b = Browse::new();
    assert!(b.take(BrowseEvent::Resolved {
        hostname: "boppo-1.local.".to_owned(),
        device_name: Some("Kitchen".to_owned()),
    }));
    assert!(b.take(BrowseEvent::Other));
    assert!(b.take(BrowseEvent::Resolved {
        hostname: "boppo-2.local.".to_owned(),
        device_name: None,
    }));
    assert!(!b.take(BrowseEvent::Expired));
    assert!(!b.take(BrowseEvent::Closed));
    assert_eq!(b.devices.len(), 2);
    assert_eq!(b.devices[0].serial, "1");
    assert_eq!(b.devices[0].device_name, "Kitchen");
    assert_eq!(b.devices[1].serial, "2");
    assert_eq!(b.devices[1].device_name, "unknown");
}

#[test]
fn pairing_asks_the_device_at_its_url() {
    let r = pairing_request("12", 1700000000);
    assert_eq!(r.url, "https://boppo-12.local");
    assert_eq!(r.request_id, 1700000000);
}

#[test]
fn the_search_stops_at_a_package() {
    match search_step(Manifest::Package("game".to_owned())) {
        SearchStep::Found(name) => assert_eq!(name, "game"),
        SearchStep::GoUp => panic!("the package is here"),
    }
    assert!(matches!(search_step(Manifest::Absent), SearchStep::GoUp));
    assert!(matches!(search_step(Manifest::WithoutPackage), SearchStep::GoUp));
    assert_eq!(search_after_going_up(true), Ok(()));
    assert_eq!(
        search_after_going_up(false),
        Err("could not find a Cargo.toml with a [package] section\n\
             Run this command from within a Wasm activity project."
            .to_owned())
    );
    assert_eq!(
        package_name::<String, String>(Ok(("/p".to_owned(), "game".to_owned()))),
        Ok("game".to_owned())
    );
    assert_eq!(package_name::<String, String>(Err("none".to_owned())), Err("none".to_owned()));
}

#[test]
fn cargo_compiles_the_package_for_the_device() {
    assert_eq!(TARGET, "wasm32-wasip1");
    assert_eq!(DEVICE_ROOT, "/sd/activities/user/wasm");
    assert_eq!(
        cargo_args("my-game"),
        ["build", "--package", "my-game", "--target", "wasm32-wasip1", "--release"]
    );
}

fn failure(step: BuildStep) -> String {
    match step {
        BuildStep::Fail(m) => m,
        _ => panic!("the build goes on"),
    }
}

#[test]
fn a_build_runs_the_optimizer_when_asked() {
    let ok = ToolResult::Exited { success: true };
    let bad = ToolResult::Exited { success: false };
    assert!(matches!(after_cargo("g", false, ok), BuildStep::Built));
    match after_cargo("t/my_game.wasm", true, ok) {
        BuildStep::Optimize { line, args } => {
            let wasm = "t/my_game.wasm";
            assert_eq!(line, format!("Optimizing {} with wasm-opt...", wasm));
            assert_eq!(args, ["-Oz", "--output", wasm, wasm]);
        }
        _ => panic!("the optimizer is next"),
    }
    assert_eq!(failure(after_cargo("g", true, bad)), "cargo build failed");
    assert_eq!(
        failure(after_cargo("g", true, ToolResult::NotFound)),
        "cargo not found — install Rust from https://rustup.rs\n\
         Also run: rustup target add wasm32-wasip1"
    );
    assert!(matches!(after_cargo("g", true, ToolResult::NotStarted), BuildStep::FailToStart));
    assert!(matches!(after_wasm_opt(ok), BuildStep::Built));
    assert_eq!(failure(after_wasm_opt(bad)), "wasm-opt failed");
    assert!(matches!(after_wasm_opt(ToolResult::NotStarted), BuildStep::FailToStart));
    assert_eq!(
        failure(after_wasm_opt(ToolResult::NotFound)),
        "wasm-opt not found\n  \
         macOS:    brew install binaryen\n  \
         Ubuntu:   apt install binaryen\n  \
         Windows:  scoop install binaryen\n  \
         Releases: https://github.com/WebAssembly/binaryen/releases"
    );
}

#[test]
fn the_compiled_activity_has_underscores() {
    assert_eq!(
        release_path("my-cool-game"),
        ["target", "wasm32-wasip1", "release", "my_cool_game.wasm"]
    );
    assert_eq!(release_path("plain"), ["target", "wasm32-wasip1", "release", "plain.wasm"]);
    let path = release_path("my-cool-game").iter().collect::<std::path::PathBuf>();
    assert_eq!(
        path,
        std::path::PathBuf::from("target/wasm32-wasip1/release/my_cool_game.wasm")
    );
}

#[test]
fn the_started_file_is_the_staged_one() {
    assert_eq!(start_command("my-game"), "start wasm user/wasm/my-game/my-game.wasm");
    let ops = stage_ops("my-game", "t/my_game.wasm", true);
    assert_eq!(ops.len(), 3);
    match &ops[0] {
        StageOp::Clear { dir, context } => {
            assert_eq!(dir, &staging_path());
            assert_eq!(context, "failed to clear target/deploy");
        }
        _ => panic!("the staging directory is cleared first"),
    }
    match &ops[1] {
        StageOp::Create { dir, context } => {
            assert_eq!(dir, &["target", "deploy"]);
            assert_eq!(context, "failed to create target/deploy");
        }
        _ => panic!("the staging directory is created next"),
    }
    match &ops[2] {
        StageOp::CopyFile { from, to, context } => {
            assert_eq!(from, &["target", "wasm32-wasip1", "release", "my_game.wasm"]);
            assert_eq!(to, &["target", "deploy", "my-game.wasm"]);
            assert_eq!(context, "failed to copy t/my_game.wasm");
        }
        _ => panic!("the activity is copied last"),
    }
    assert_eq!(stage_ops("g", "g", false).len(), 2);
    match &asset_ops(true)[..] {
        [StageOp::CopyDir { from, to, context }] => {
            assert_eq!(from, &["assets"]);
            assert_eq!(to, &["target", "deploy"]);
            assert_eq!(context, "failed to copy assets");
        }
        _ => panic!("the assets are copied"),
    }
    assert!(asset_ops(false).is_empty());
}
