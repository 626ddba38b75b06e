use stalwart_cli::accounts::{
    account_from_record, collect_domains, column_layout, csv_delimiter, email_domain,
    has_required_columns, plan_accounts, AccountsError, NewAccount,
};
use stalwart_cli::cli::MailboxFormat;
use stalwart_cli::ingest::{first_failure, DeliveryStatus};
use stalwart_cli::principal::{single_id, split_credentials, LookupError, PrincipalProperty};

fn s(t: &str) -> String {
    t.to_string()
}

fn strings(parts: &[&str]) -> Vec<String> {
    parts.iter().map(|p| p.to_string()).collect()
}

#[test]
fn lookup_needs_exactly_one_principal() {
    assert_eq!(single_id(vec![]), Err(LookupError::NotFound));
    assert_eq!(single_id(strings(&["a", "b"])), Err(LookupError::Ambiguous));
    assert_eq!(single_id(strings(&["a"])), Ok(s("a")));
}

#[test]
fn credentials_split_at_first_colon() {
    assert_eq!(split_credentials("user:pa:ss"), (s("user"), s("pa:ss")));
    assert_eq!(split_credentials("secret"), (s("admin"), s("secret")));
    assert_eq!(split_credentials(":x"), (s(""), s("x")));
}

#[test]
fn property_headings() {
    assert_eq!(PrincipalProperty::Email.table_name(), "E-mail");
    assert_eq!(PrincipalProperty::Dkim.table_name(), "DKIM");
    assert_eq!(PrincipalProperty::Acl.table_name(), "ACL");
    assert_eq!(PrincipalProperty::Quota.table_name(), "Quota");
}

#[test]
fn delimiters() {
    assert_eq!(csv_delimiter(&None), b',');
    assert_eq!(csv_delimiter(&Some(s("\\t"))), b'\t');
    assert_eq!(csv_delimiter(&Some(s(";"))), b';');
    assert_eq!(csv_delimiter(&Some(s(""))), b',');
}

#[test]
fn layouts() {
    let layout = column_layout(&None);
    assert_eq!(layout, strings(&["email", "secret", "name", "description", "quota", "timezone"]));
    assert!(has_required_columns(&layout));
    let partial = column_layout(&Some(s("email,name")));
    assert_eq!(partial, strings(&["email", "name"]));
    assert!(!has_required_columns(&partial));
}

#[test]
fn records_become_accounts() {
    let layout = column_layout(&None);
    let record = strings(&["a@x.com", "pw", "Alice", "desc", "100", "UTC"]);
    assert_eq!(
        account_from_record(&layout, &record),
        Some(NewAccount {
            email: s("a@x.com"),
            secret: s("pw"),
            name: s("Alice"),
            description: Some(s("desc")),
            quota: Some(100),
            timezone: Some(s("UTC")),
        })
    );
    let short = strings(&["b@x.com", "pw", "Bob"]);
    let bob = account_from_record(&layout, &short).unwrap();
    assert_eq!(bob.description, None);
    assert_eq!(bob.quota, None);
    let bad_quota = strings(&["c@x.com", "pw", "C", "", "lots", ""]);
    assert_eq!(account_from_record(&layout, &bad_quota).unwrap().quota, None);
    let plus_quota = strings(&["c@x.com", "pw", "C", "", "+7", ""]);
    assert_eq!(account_from_record(&layout, &plus_quota).unwrap().quota, Some(7));
    assert_eq!(account_from_record(&layout, &strings(&["d@x.com", "pw"])), None);
    let twice = strings(&["email", "email", "secret", "name", "name"]);
    let acct = account_from_record(&twice, &strings(&["first@x", "second@x", "s", "n1", "n2"]));
    let acct = acct.unwrap();
    assert_eq!(acct.email, "first@x");
    assert_eq!(acct.name, "n2");
}

#[test]
fn domains_are_collected_once_in_lower_case() {
    let layout = column_layout(&None);
    let records = vec![
        strings(&["a@Example.COM", "p", "A"]),
        strings(&["b@example.com", "p", "B"]),
        strings(&["c@other.org", "p", "C"]),
        strings(&["noat", "p", "D"]),
    ];
    assert_eq!(collect_domains(&layout, &records), strings(&["example.com", "other.org"]));
    assert_eq!(email_domain("x@y@Z.com"), Some(s("z.com")));
    assert_eq!(email_domain("nobody"), None);
}

#[test]
fn delivery_exit_codes() {
    let statuses = vec![DeliveryStatus::Success, DeliveryStatus::NotFound, DeliveryStatus::Failure];
    assert_eq!(first_failure(&statuses), Some((1, 67)));
    assert_eq!(first_failure(&vec![DeliveryStatus::Success]), None);
    assert_eq!(DeliveryStatus::TemporaryFailure.exit_code(), Some(75));
    assert_eq!(DeliveryStatus::Failure.exit_code(), Some(77));
}

#[test]
fn mailbox_formats() {
    assert_eq!(MailboxFormat::Maildir.separator(), '.');
    assert_eq!(MailboxFormat::MaildirNested.separator(), '/');
    assert_eq!(MailboxFormat::Maildir.subfolder_prefix(), Some('.'));
    assert_eq!(MailboxFormat::MaildirNested.subfolder_prefix(), None);
    assert!(!MailboxFormat::Mbox.is_maildir());
}

#[test]
fn csv_with_headers_becomes_a_plan() {
    let data = b"name ; email ; secret\nAlice; a@Example.com ;pw\nBob;b@example.com;\n".to_vec();
    let plan = plan_accounts(&data, &Some(s(";")), true, &None, false).unwrap();
    assert_eq!(plan.domains, strings(&["example.com"]));
    assert_eq!(plan.accounts.len(), 2);
    let alice = plan.accounts[0].as_ref().unwrap();
    assert_eq!(alice.email, "a@Example.com");
    assert_eq!(alice.name, "Alice");
    assert_eq!(alice.quota, None);
    let bob = plan.accounts[1].as_ref().unwrap();
    assert_eq!(bob.secret, "");
}

#[test]
fn csv_without_headers_uses_the_layout() {
    let data = b"a@x.org,pw,Alice,,5,\nb@y.org,pw\n".to_vec();
    let plan = plan_accounts(&data, &None, false, &None, true).unwrap();
    assert!(plan.domains.is_empty());
    assert_eq!(plan.accounts[0].as_ref().unwrap().quota, Some(5));
    assert_eq!(plan.accounts[1], None);
    let tabbed = b"pw\tCarol\tc@z.net\n".to_vec();
    let layout = Some(s("secret,name,email"));
    let plan = plan_accounts(&tabbed, &Some(s("\\t")), false, &layout, false).unwrap();
    assert_eq!(plan.domains, strings(&["z.net"]));
    assert_eq!(plan.accounts[0].as_ref().unwrap().name, "Carol");
}

#[test]
fn csv_errors() {
    let data = b"email,name\na@x,A\n".to_vec();
    assert_eq!(
        plan_accounts(&data, &None, true, &None, false),
        Err(AccountsError::MissingColumns)
    );
    let empty = b"email,secret,name\n".to_vec();
    assert_eq!(plan_accounts(&empty, &None, true, &None, false), Err(AccountsError::NoRecords));
    let bad = b"email,secret,name\n\xff,pw,n\n".to_vec();
    assert!(matches!(
        plan_accounts(&bad, &None, true, &None, false),
        Err(AccountsError::Unreadable(_))
    ));
}
