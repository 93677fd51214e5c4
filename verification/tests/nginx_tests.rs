use igra_cli::nginx::NginxParser;

const SITE: &str = "upstream backend {\n\
    server 127.0.0.1:8545;\n\
    server 127.0.0.1:8546;\n\
}\n\
\n\
server {\n\
    listen 80;\n\
    listen [::]:80;\n\
    listen 443 ssl;\n\
    server_name rpc.example.com www.example.com;\n\
    ssl_certificate /etc/ssl/cert.pem;\n\
    ssl_certificate_key /etc/ssl/key.pem;\n\
    auth_basic \"Restricted\";\n\
    auth_basic_user_file /etc/nginx/.htpasswd;\n\
\n\
    location / {\n\
        proxy_pass http://backend;\n\
    }\n\
\n\
    location /api {\n\
        proxy_pass backend;\n\
    }\n\
}\n";

#[test]
fn parse_site_content_reads_directives() {
    let p = NginxParser::new();
    let site = p.parse_site_content("rpc".to_string(), "/etc/nginx/sites-enabled/rpc".to_string(), SITE);
    assert_eq!(site.name, "rpc");
    assert!(site.enabled);
    assert_eq!(site.server_names, vec!["rpc.example.com".to_string(), "www.example.com".to_string()]);
    assert_eq!(site.listen_ports, vec![80, 443]);
    assert!(site.ssl_enabled);
    assert_eq!(site.ssl_certificate, Some("/etc/ssl/cert.pem".to_string()));
    assert!(site.auth_basic);
    assert_eq!(site.upstreams.len(), 1);
    assert_eq!(site.upstreams[0].name, "backend");
    assert_eq!(site.upstreams[0].servers, vec!["127.0.0.1:8545".to_string(), "127.0.0.1:8546".to_string()]);
}

#[test]
fn locations_close_when_braces_balance() {
    // A location is stored when the braces balance again; the first location
    // here is replaced by the second before that happens.
    let p = NginxParser::new();
    let site = p.parse_site_content("s".to_string(), "f".to_string(), SITE);
    assert_eq!(site.locations.len(), 1);
    assert_eq!(site.locations[0].path, "/api");
    assert_eq!(site.locations[0].proxy_pass, None);
    assert_eq!(site.locations[0].upstream_name, Some("backend".to_string()));
    let targets = p.get_proxy_targets(&[site]);
    assert_eq!(
        targets.get("s").cloned(),
        Some(vec!["127.0.0.1:8545".to_string(), "127.0.0.1:8546".to_string()])
    );
}

#[test]
fn listen_without_port_defaults_to_80() {
    let p = NginxParser::new();
    let site = p.parse_site_content(
        "s".to_string(),
        "f".to_string(),
        "server {\nlisten unix:/run/x.sock;\n}\n",
    );
    assert_eq!(site.listen_ports, vec![80]);
}

#[test]
fn proxy_targets_by_site() {
    let p = NginxParser::new();
    let content = "location / {\nproxy_pass http://127.0.0.1:3000/app;\n}\n";
    let site = p.parse_site_content("web".to_string(), "f".to_string(), content);
    assert_eq!(site.locations.len(), 1);
    assert_eq!(site.locations[0].path, "/");
    assert_eq!(site.locations[0].proxy_pass, Some("http://127.0.0.1:3000/app".to_string()));
    assert_eq!(site.locations[0].upstream_name, Some("127.0.0.1:3000".to_string()));
    let targets = p.get_proxy_targets(&[site]);
    assert_eq!(targets.len(), 1);
    assert_eq!(
        targets.get("web").cloned(),
        Some(vec!["http://127.0.0.1:3000/app".to_string()])
    );
}
