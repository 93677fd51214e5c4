use igra_cli::system_service::{ServiceStatus, SystemServiceManager};

#[test]
fn list_units_rows() {
    let m = SystemServiceManager::new(true);
    assert!(m.uses_sudo());
    let u = m
        .parse_service_line("  nginx.service   loaded active running A high performance web server")
        .unwrap();
    assert_eq!(u.name, "nginx.service");
    assert_eq!(u.display_name, "nginx");
    assert_eq!(u.status, ServiceStatus::Running);
    assert!(u.loaded);
    assert!(u.active);
    assert_eq!(u.sub_state, "running");

    let u = m.parse_service_line("● foo.service not-found inactive dead foo.service").unwrap();
    assert_eq!(u.status, ServiceStatus::Stopped);
    assert!(u.loaded);
    assert!(!u.active);

    let u = m.parse_service_line("bar.service loaded failed failed Bar").unwrap();
    assert_eq!(u.status, ServiceStatus::Failed);
    let u = m.parse_service_line("baz.service loaded active waiting Baz").unwrap();
    assert_eq!(u.status, ServiceStatus::Unknown);

    assert!(m.parse_service_line("sshd.socket loaded active listening").is_none());
    assert!(m.parse_service_line("a b c x.service loaded").is_none());
    assert!(m.parse_service_line("x.service loaded").is_none());
}

#[test]
fn show_output_details() {
    let m = SystemServiceManager::new(false);
    let out = "Type=simple\nRestart=on-failure\nMainPID=1234\nActiveState=active\nSubState=running\n\
               LoadState=loaded\nUnitFileState=enabled\nDescription=Kaspa node\nX=a=b\n";
    let d = m.parse_service_details("kaspad.service", out);
    assert_eq!(d.display_name, "kaspad");
    assert_eq!(d.status, ServiceStatus::Running);
    assert_eq!(d.pid, Some(1234));
    assert!(d.enabled);
    assert!(d.loaded);
    assert!(d.active);
    assert!(d.auto_restart);
    assert_eq!(d.description, "Kaspa node");

    let d = m.parse_service_details("x", "ActiveState=inactive\nRestart=no\nMainPID=none\n");
    assert_eq!(d.status, ServiceStatus::Stopped);
    assert_eq!(d.pid, None);
    assert!(!d.auto_restart);
    assert_eq!(d.sub_state, "unknown");
    assert_eq!(d.description, "");

    let d = m.parse_service_details("x", "");
    assert_eq!(d.status, ServiceStatus::Unknown);
    assert!(!d.loaded);
}

#[test]
fn relevant_services() {
    assert!(SystemServiceManager::is_relevant_service("kaspad.service"));
    assert!(!SystemServiceManager::is_relevant_service("systemd-journald.service"));
    assert!(!SystemServiceManager::is_relevant_service("ssh.service"));
    assert!(SystemServiceManager::is_relevant_service("sshd.service"));
}

#[test]
fn listening_ports_sorted_once() {
    let m = SystemServiceManager::new(false);
    let ss = "State  Recv-Q Send-Q Local Address:Port Peer Address:Port Process\n\
              LISTEN 0 128 0.0.0.0:8080 0.0.0.0:* users:((\"app\",pid=42,fd=6))\n\
              LISTEN 0 128 [::]:8080 [::]:* users:((\"app\",pid=42,fd=7))\n\
              LISTEN 0 128 127.0.0.1:22 0.0.0.0:* users:((\"app\",pid=42,fd=8))\n\
              LISTEN 0 128 0.0.0.0:443 0.0.0.0:* users:((\"other\",pid=7,fd=3))\n";
    assert_eq!(m.listening_ports_from(ss, 42), vec!["22/tcp".to_string(), "8080/tcp".to_string()]);
    assert!(m.listening_ports_from(ss, 99).is_empty());
}

#[test]
fn proc_memory_and_network() {
    let m = SystemServiceManager::new(false);
    assert_eq!(m.memory_from_status("Name:\tx\nVmRSS:\t   2048 kB\n"), Some(2048 * 1024));
    assert_eq!(m.memory_from_status("Name:\tx\n"), None);
    let dev = "Inter-|   Receive |  Transmit\n face |bytes packets errs drop fifo frame compressed multicast|bytes\n\
                 lo: 100 1 0 0 0 0 0 0 100 1 0 0 0 0 0 0\n\
               eth0: 5000 10 0 0 0 0 0 0 700 5 0 0 0 0 0 0\n\
               eth1: 1000 10 0 0 0 0 0 0 300 5 0 0 0 0 0 0\n";
    assert_eq!(m.network_from_net_dev(dev), (6000, 1000));
    assert_eq!(m.network_from_net_dev("only one line"), (0, 0));
}

#[test]
fn filter_keeps_relevant_in_order() {
    let m = SystemServiceManager::new(false);
    let lines = [
        "nginx.service loaded active running web",
        "systemd-journald.service loaded active running journal",
        "cron.service loaded active running cron",
        "traefik.service loaded active running proxy",
    ];
    let units: Vec<_> = lines.iter().map(|l| m.parse_service_line(l).unwrap()).collect();
    let kept = m.filter_relevant_services(units);
    let names: Vec<&str> = kept.iter().map(|u| u.name.as_str()).collect();
    assert_eq!(names, vec!["nginx.service", "traefik.service"]);
}

#[test]
fn show_counters_read_memory_and_restarts() {
    let m = SystemServiceManager::new(false);
    let out = "Id=kaspad.service\nMemoryCurrent=123456\nNRestarts=2\nMemoryCurrent=[not set]\n";
    assert_eq!(m.show_counters(out, 7), (123456, 2));
    assert_eq!(m.show_counters("NRestarts=x\nOther=1", 7), (7, 0));
    assert_eq!(m.show_counters("", 9), (9, 0));
    assert_eq!(m.show_counters("NRestarts=1\nNRestarts=4\nMemoryCurrent=+5", 0), (5, 4));
}
