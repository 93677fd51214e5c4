use igra_cli::host::{cpu_info, os_info};

#[test]
fn os_release_name_and_version() {
    let text = "PRETTY_NAME=\"Ubuntu 22.04.4 LTS\"\nNAME=\"Ubuntu\"\nVERSION_ID=\"22.04\"\nVERSION=\"22.04.4 LTS (Jammy Jellyfish)\"\n";
    let (name, version) = os_info(text);
    assert_eq!(name, "Ubuntu");
    assert_eq!(version, "22.04.4 LTS (Jammy Jellyfish)");
    let (name, version) = os_info("");
    assert_eq!(name, "Linux");
    assert_eq!(version, "");
}

#[test]
fn lscpu_cores_and_model() {
    let text = "Architecture:            x86_64\nCPU(s):                  16\nModel name:              AMD EPYC 7502P 32-Core Processor\nCPU max MHz:             2500.0000\n";
    let (cores, model) = cpu_info(text);
    assert_eq!(cores, 16);
    assert_eq!(model, "AMD EPYC 7502P 32-Core Processor");
    let (cores, model) = cpu_info("CPU(s): many\nModel name: a:b\n");
    assert_eq!(cores, 0);
    assert_eq!(model, "a");
    let (cores, model) = cpu_info("");
    assert_eq!(cores, 0);
    assert_eq!(model, "Unknown CPU");
}
