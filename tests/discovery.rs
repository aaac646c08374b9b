use groo::config::{get_logs_dir, get_service_log_file, get_state_file};
use groo::discovery::{
    detect_framework, detect_port, get_project_name, is_ignored, is_orchestrator_script,
    service_for_script, service_name, ConfigFiles, FrameworkType,
};

fn no_files() -> ConfigFiles {
    ConfigFiles {
        vite_config_ts: None,
        vite_config_js: None,
        vite_config_mts: None,
        vite_config_mjs: None,
        wrangler_jsonc: None,
        wrangler_toml: None,
    }
}

#[test]
fn next_port_from_flag_or_default() {
    let f = no_files();
    assert_eq!(detect_port(&FrameworkType::NextJs, "next dev -p 3001", &f), Some(3001));
    assert_eq!(detect_port(&FrameworkType::NextJs, "next dev --port=4010", &f), Some(4010));
    assert_eq!(detect_port(&FrameworkType::NextJs, "next dev", &f), Some(3000));
    assert_eq!(detect_port(&FrameworkType::Unknown, "node server.js", &f), None);
    assert_eq!(detect_port(&FrameworkType::Unknown, "serve --port 7000", &f), Some(7000));
    assert_eq!(detect_port(&FrameworkType::Unknown, "serve --port 70000", &f), None);
}

#[test]
fn vite_port_from_config_or_default() {
    let mut f = no_files();
    assert_eq!(detect_port(&FrameworkType::Vite, "vite", &f), Some(5173));
    f.vite_config_js = Some("export default { server: { port: 4321 } }".to_string());
    assert_eq!(detect_port(&FrameworkType::Vite, "vite", &f), Some(4321));
    f.vite_config_ts = Some("export default {}".to_string());
    assert_eq!(detect_port(&FrameworkType::Vite, "vite", &f), Some(4321));
}

#[test]
fn wrangler_port_from_json_then_toml() {
    let mut f = no_files();
    assert_eq!(detect_port(&FrameworkType::Wrangler, "wrangler dev", &f), Some(8787));
    f.wrangler_toml = Some("name = \"w\"\n[dev]\nport = 9000\n".to_string());
    assert_eq!(detect_port(&FrameworkType::Wrangler, "wrangler dev", &f), Some(9000));
    f.wrangler_jsonc = Some("{ // c\n \"dev\": { \"port\": 9100 } }".to_string());
    assert_eq!(detect_port(&FrameworkType::Wrangler, "wrangler dev", &f), Some(9100));
}

#[test]
fn framework_detection_order() {
    let mut f = no_files();
    assert_eq!(detect_framework("wrangler dev", &f), FrameworkType::Wrangler);
    assert_eq!(detect_framework("next dev", &f), FrameworkType::NextJs);
    assert_eq!(detect_framework("vite", &f), FrameworkType::Vite);
    assert_eq!(detect_framework("node index.js", &f), FrameworkType::Unknown);
    f.vite_config_ts = Some(String::new());
    assert_eq!(detect_framework("node index.js", &f), FrameworkType::Vite);
    f.wrangler_toml = Some(String::new());
    assert_eq!(detect_framework("next dev", &f), FrameworkType::Wrangler);
}

#[test]
fn orchestrators_and_ignored_dirs() {
    assert!(is_orchestrator_script("turbo run dev --parallel"));
    assert!(is_orchestrator_script("pnpm --filter web dev"));
    assert!(!is_orchestrator_script("next dev"));
    assert!(is_ignored("/repo/node_modules"));
    assert!(is_ignored("/repo/apps/.next"));
    assert!(!is_ignored("/repo/apps/web"));
    assert!(!is_ignored("/"));
}

#[test]
fn names_of_projects_and_services() {
    assert_eq!(get_project_name("/home/me/shop"), "shop");
    assert_eq!(get_project_name("/home/me/shop/"), "shop");
    assert_eq!(get_project_name("/"), "unknown");
    assert_eq!(service_name("apps/web"), "apps:web");
    assert_eq!(service_name("api"), "api");
}

#[test]
fn config_paths() {
    assert_eq!(get_state_file("/home/me/.config/groo"), "/home/me/.config/groo/state.json");
    assert_eq!(get_logs_dir("/cfg/"), "/cfg/logs");
    assert_eq!(get_service_log_file("/cfg", "/repo/apps/web"), "/cfg/logs/%2Frepo%2Fapps%2Fweb.log");
    assert_eq!(get_service_log_file("/cfg", "/a/100%"), "/cfg/logs/%2Fa%2F100%25.log");
    assert_ne!(get_service_log_file("/cfg", "/a/b"), get_service_log_file("/cfg", "/a%2Fb"));
}

#[test]
fn services_from_dev_scripts() {
    let files = no_files();
    assert!(service_for_script("/r/apps/web", Some("apps/web"), None, &files).is_none());
    assert!(service_for_script("/r/apps/web", Some("apps/web"), Some("turbo run dev".to_string()), &files).is_none());
    let s = service_for_script("/r/apps/web", Some("apps/web"), Some("next dev -p 3005".to_string()), &files).unwrap();
    assert_eq!(s.name, "apps:web");
    assert_eq!(s.path, "/r/apps/web");
    assert_eq!(s.framework, FrameworkType::NextJs);
    assert_eq!(s.port, Some(3005));
    let t = service_for_script("/elsewhere/api", None, Some("node index.js".to_string()), &files).unwrap();
    assert_eq!(t.name, "api");
    assert_eq!(t.port, None);
}
