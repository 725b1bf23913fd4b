use mayday::cli::CliOptions;

#[test]
fn options_carry_the_configuration() {
    let options = CliOptions {
        output_dir: "/var/log/sos".to_string(),
        vault_server: "https://vault:8200".to_string(),
        vault_token_file: "/run/secrets/token".to_string(),
        vault_secret_engine: "packet".to_string(),
        vault_role: "read-only".to_string(),
        project_id: "proj-1".to_string(),
    };
    assert_eq!(options.output_dir, "/var/log/sos");
    assert_eq!(options.project_id, "proj-1");
}
