use proxy_fetch::config::Config;
use proxy_fetch::proxy_handler::{BrightDataRandomProxyHandler, ProxyHandler};

fn test_config() -> Config {
    Config {
        proxy_username: "user".to_string(),
        proxy_password: "pw".to_string(),
        proxy_host: "proxy.example.test".to_string(),
        proxy_port: "22225".to_string(),
        zenrows_api_key: "pw".to_string(),
        api_port: "5000".to_string(),
        proxies_txt_file: "proxies.txt".to_string(),
    }
}

#[test]
fn new_formats_each_endpoint_from_the_shared_credentials() {
    let config = test_config();
    let pool = BrightDataRandomProxyHandler::new(vec!["1.2.3.4".to_string()], &config);
    let selected = pool.get_proxy().unwrap();
    assert_eq!(
        selected,
        "http://user-ip-1.2.3.4:pw@proxy.example.test:22225"
    );
}

#[test]
fn empty_pool_selects_nothing() {
    let config = test_config();
    let pool = BrightDataRandomProxyHandler::new(Vec::new(), &config);
    assert!(pool.get_proxy().is_none());
}

#[test]
fn selection_reaches_every_member() {
    let config = test_config();
    let pool = BrightDataRandomProxyHandler::new(
        vec!["10.0.0.1".to_string(), "10.0.0.2".to_string(), "10.0.0.3".to_string()],
        &config,
    );
    let mut seen = [false, false, false];
    for _ in 0..300 {
        let p = pool.get_proxy().unwrap();
        if p.contains("10.0.0.1") {
            seen[0] = true;
        } else if p.contains("10.0.0.2") {
            seen[1] = true;
        } else if p.contains("10.0.0.3") {
            seen[2] = true;
        } else {
            panic!("selected endpoint outside the pool: {}", p);
        }
    }
    assert!(seen[0] && seen[1] && seen[2]);
}

#[test]
fn removed_member_is_never_selected_again() {
    let config = test_config();
    let mut pool = BrightDataRandomProxyHandler::new(
        vec!["10.0.0.1".to_string(), "10.0.0.2".to_string()],
        &config,
    );
    let doomed = "http://user-ip-10.0.0.1:pw@proxy.example.test:22225";
    pool.remove(doomed);
    for _ in 0..200 {
        let p = pool.get_proxy().unwrap();
        assert_ne!(p, doomed);
    }
}

#[test]
fn remove_drops_one_matching_member() {
    let config = test_config();
    let mut pool = BrightDataRandomProxyHandler::new(vec!["10.0.0.1".to_string()], &config);
    pool.remove("http://user-ip-10.0.0.1:pw@proxy.example.test:22225");
    assert!(pool.get_proxy().is_none());
    // removing an absent endpoint is a no-op
    pool.remove("not-a-member");
    assert!(pool.get_proxy().is_none());
}
