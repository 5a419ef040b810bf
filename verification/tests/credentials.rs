//! Profiles, and where the region and the credentials come from.
use ami_s3_archive::credentials::{
    container_uri, imds_role, imds_url, json_creds, profile_creds, profile_value,
    resolve_credentials, resolve_region, role_path, CredentialSource, CredentialStep, RegionSource,
    RegionStep,
};
use ami_s3_archive::ini::{parse_ini, Ini};
use ami_s3_archive::Credentials;

const FILE: &str = "top = ignored\r\n# [not]\n; comment\n\n [ default ] trailing\n\
    AWS_Access_Key_Id = \"AK1\"\naws_secret_access_key='S=1'\n[profile work]\nregion = eu-west-3\n\
    region = eu-west-1\n[work]\nregion=us-east-1\noutput = json\naws_access_key_id=AK2\n\
    aws_secret_access_key=S2\naws_session_token= T2 \n[]\nx=1\n[half]\naws_access_key_id=AK3\n[open\n";

fn env(key: Option<&str>, secret: Option<&str>, token: Option<&str>) -> CredentialSource {
    CredentialSource::Environment {
        key: key.map(|s| s.to_string()),
        secret: secret.map(|s| s.to_string()),
        token: token.map(|s| s.to_string()),
    }
}

fn given(explicit: &str, region: Option<&str>, default_region: Option<&str>) -> RegionSource {
    RegionSource::Given {
        explicit: explicit.to_string(),
        region: region.map(|s| s.to_string()),
        default_region: default_region.map(|s| s.to_string()),
    }
}

fn found(step: CredentialStep) -> Credentials {
    match step {
        CredentialStep::Over(Ok(c)) => c,
        _ => panic!("no credentials"),
    }
}

fn failed(step: CredentialStep) -> String {
    match step {
        CredentialStep::Over(Err(e)) => e.message(),
        _ => panic!("no failure"),
    }
}

fn empty() -> Ini {
    parse_ini("")
}

#[test]
fn settings_belong_to_sections() {
    let ini = parse_ini(FILE);
    assert_eq!(ini.get("default", "aws_access_key_id"), Some("AK1".to_string()));
    assert_eq!(ini.get("default", "aws_secret_access_key"), Some("S=1".to_string()));
    assert_eq!(ini.get("default", "AWS_Access_Key_Id"), None);
    assert_eq!(ini.get("work", "output"), Some("json".to_string()));
    assert_eq!(ini.get("", "x"), None);
    assert_eq!(ini.get("", "top"), None);
    assert_eq!(ini.get("not", "x"), None);
    assert_eq!(parse_ini("[s]\nk=v").get("s", "k"), Some("v".to_string()));
    assert_eq!(parse_ini("[s]\n#c\n\n  ;d\nk=v").get("s", "k"), Some("v".to_string()));
}

#[test]
fn the_last_setting_of_a_key_counts() {
    assert_eq!(parse_ini(FILE).get("profile work", "region"), Some("eu-west-1".to_string()));
}

#[test]
fn profiles_have_two_sections() {
    let ini = parse_ini(FILE);
    assert_eq!(profile_value(&ini, "work", "region"), Some("eu-west-1".to_string()));
    assert_eq!(profile_value(&ini, "work", "output"), Some("json".to_string()));
    assert_eq!(profile_value(&ini, "default", "region"), None);
    assert_eq!(profile_value(&ini, "other", "region"), None);
}

#[test]
fn profiles_need_a_key_and_a_secret() {
    let ini = parse_ini(FILE);
    let work = profile_creds(&ini, "work").unwrap();
    assert_eq!(work.access_key_id, "AK2");
    assert_eq!(work.secret_access_key, "S2");
    assert_eq!(work.session_token, "T2");
    assert_eq!(work.source, "profile:work");
    assert_eq!(profile_creds(&ini, "default").unwrap().session_token, "");
    assert!(profile_creds(&ini, "half").is_none());
    assert!(profile_creds(&ini, "other").is_none());
}

#[test]
fn documents_hold_credentials() {
    let text = r#"{"AccessKeyId":"A","SecretAccessKey":"S","Token":"TA","Other":1}"#;
    let c = json_creds(text, "x").unwrap();
    assert_eq!((c.access_key_id.as_str(), c.secret_access_key.as_str()), ("A", "S"));
    assert_eq!((c.session_token.as_str(), c.source.as_str()), ("TA", "x"));
    let partial = json_creds(r#"{"AccessKeyId":"A","Token":7}"#, "x").unwrap();
    assert_eq!((partial.secret_access_key.as_str(), partial.session_token.as_str()), ("", ""));
    assert!(json_creds(r#"{"AccessKeyId":""}"#, "x").is_none());
    assert!(json_creds("[]", "x").is_none());
    assert!(json_creds("not JSON", "x").is_none());
}

#[test]
fn credentials_come_from_the_first_source() {
    let c = found(resolve_credentials("work", env(Some("A"), Some("S"), None)));
    assert_eq!((c.access_key_id.as_str(), c.session_token.as_str()), ("A", ""));
    assert_eq!(c.source, "env");
    let token = found(resolve_credentials("work", env(Some("A"), Some("S"), Some("T"))));
    assert_eq!(token.session_token, "T");
    assert_eq!(
        failed(resolve_credentials("work", env(Some("A"), None, None))),
        "AWS_ACCESS_KEY_ID is set but AWS_SECRET_ACCESS_KEY is empty",
    );
    assert!(matches!(
        resolve_credentials("work", env(Some(""), Some("S"), None)),
        CredentialStep::ReadProfile
    ));
    assert!(matches!(
        resolve_credentials("work", env(None, None, None)),
        CredentialStep::ReadProfile
    ));
    let c = found(resolve_credentials("work", CredentialSource::Profile(parse_ini(FILE))));
    assert_eq!(c.source, "profile:work");
    assert!(matches!(
        resolve_credentials("work", CredentialSource::Profile(empty())),
        CredentialStep::AskContainer
    ));
    let document = r#"{"AccessKeyId":"A"}"#.to_string();
    let c = found(resolve_credentials("work", CredentialSource::Container(Some(document.clone()))));
    assert_eq!(c.source, "ecs-container");
    assert!(matches!(
        resolve_credentials("work", CredentialSource::Container(Some("{}".to_string()))),
        CredentialStep::AskInstance
    ));
    assert!(matches!(
        resolve_credentials("work", CredentialSource::Container(None)),
        CredentialStep::AskInstance
    ));
    let reply = Some(("role".to_string(), document));
    let c = found(resolve_credentials("work", CredentialSource::Instance(reply)));
    assert_eq!(c.source, "ec2-imds:role");
    assert_eq!(
        failed(resolve_credentials("wo\"rk", CredentialSource::Instance(None))),
        r#"no credentials found in env, profile "wo\"rk", ECS, or EC2 IMDS"#,
    );
}

#[test]
fn the_region_comes_from_the_first_source() {
    fn region(step: RegionStep) -> String {
        match step {
            RegionStep::Over(Ok(r)) => r,
            RegionStep::Over(Err(e)) => e.message(),
            RegionStep::ReadProfile => "ReadProfile".to_string(),
            RegionStep::AskInstance => "AskInstance".to_string(),
        }
    }
    assert_eq!(region(resolve_region("work", given("a", Some("b"), Some("c")))), "a");
    assert_eq!(region(resolve_region("work", given("", Some("b"), Some("c")))), "b");
    assert_eq!(region(resolve_region("work", given("", Some(""), Some("c")))), "c");
    assert_eq!(region(resolve_region("work", given("", None, None))), "ReadProfile");
    let file = RegionSource::Profile(parse_ini(FILE));
    assert_eq!(region(resolve_region("work", file)), "eu-west-1");
    assert_eq!(region(resolve_region("x", RegionSource::Profile(empty()))), "AskInstance");
    let document = Some(r#"{"region":"us-west-2"}"#.to_string());
    assert_eq!(region(resolve_region("x", RegionSource::Instance(document))), "us-west-2");
    let message =
        "region not found; pass --region or set AWS_REGION/AWS_DEFAULT_REGION/profile region";
    for document in [None, Some("{}".to_string()), Some("no".to_string())] {
        assert_eq!(region(resolve_region("x", RegionSource::Instance(document))), message);
    }
}

#[test]
fn services_of_the_machine_have_addresses() {
    let s = |t: &str| Some(t.to_string());
    assert_eq!(container_uri(s("http://x"), s("/y")), s("http://x"));
    assert_eq!(container_uri(None, s("/y")), s("http://169.254.170.2/y"));
    assert_eq!(container_uri(s(""), s("/y")), None);
    assert_eq!(container_uri(None, None), None);
    assert_eq!(imds_url("//a/b"), "http://169.254.169.254/latest/a/b");
    assert_eq!(imds_url("a"), "http://169.254.169.254/latest/a");
    assert_eq!(imds_role(" one \r\ntwo"), s("one"));
    assert_eq!(imds_role("\none"), None);
    assert_eq!(imds_role(""), None);
    assert_eq!(role_path("r"), "meta-data/iam/security-credentials/r");
}
