//! Bulk creation of accounts from CSV records: the column layout, the
//! fields of each record, and the domains the accounts need.
use vstd::prelude::*;
use vstd::string::*;
use crate::folders::{split_spec, split_text};
use crate::principal::last_char;

verus! {

/// The ASCII lower-case form of `c`.
pub open spec fn lower_char(c: char) -> char {
    if 'A' <= c <= 'Z' {
        ((c as u32) + 32) as char
    } else {
        c
    }
}

/// Relies on `str::to_ascii_lowercase`: ASCII letters `A` to `Z` become `a`
/// to `z`, every other character is kept.
#[verifier::external_body]
fn lowercase_ascii(s: &str) -> (r: String)
    ensures
        r@ == s@.map_values(|c: char| lower_char(c)),
{
    s.to_ascii_lowercase()
}

/// The value of a decimal digit.
pub open spec fn digit_value(c: char) -> int {
    (c as u32) - ('0' as u32)
}

/// The number that a sequence of decimal digits writes.
pub open spec fn digits_value(s: Seq<char>) -> int
    decreases s.len(),
{
    if s.len() == 0 {
        0
    } else {
        digits_value(s.drop_last()) * 10 + digit_value(s.last())
    }
}

/// The digits of an unsigned number's text: the text without one leading
/// `+`.
pub open spec fn unsigned_digits(s: Seq<char>) -> Seq<char> {
    if s.len() > 0 && s[0] == '+' {
        s.drop_first()
    } else {
        s
    }
}

/// What parsing `s` as a `u32` gives: an optional `+` and then one or more
/// decimal digits, whose value fits.
pub open spec fn parse_u32_spec(s: Seq<char>) -> Option<u32> {
    let d = unsigned_digits(s);
    if d.len() > 0 && (forall|i: int| 0 <= i < d.len() ==> '0' <= #[trigger] d[i] <= '9')
        && digits_value(d) <= u32::MAX {
        Some(digits_value(d) as u32)
    } else {
        None
    }
}

/// Relies on `u32`'s `FromStr`: an optional `+` followed by decimal digits
/// only, whose value fits in a `u32`, gives that value; anything else is an
/// error.
#[verifier::external_body]
fn parse_u32(s: &str) -> (r: Option<u32>)
    ensures
        r == parse_u32_spec(s@),
{
    s.parse::<u32>().ok()
}

/// The column layout used when none is given and the file has no header.
pub open spec fn default_layout_text() -> Seq<char> {
    "email,secret,name,description,quota,timezone"@
}

/// The column layout named by the text `layout`, comma separated, or the
/// default layout.
pub fn column_layout(layout: &Option<String>) -> (r: Vec<String>)
    ensures
        r.deep_view() == split_spec(
            match layout {
                Some(l) => l@,
                None => default_layout_text(),
            },
            ',',
        ),
{
    match layout {
        Some(l) => split_text(l.as_str(), ','),
        None => split_text("email,secret,name,description,quota,timezone", ','),
    }
}

/// Whether a layout names the columns every account needs: `email`,
/// `secret` and `name`.
pub open spec fn required_columns(layout: Seq<Seq<char>>) -> bool {
    layout.contains("email"@) && layout.contains("secret"@) && layout.contains("name"@)
}

/// Whether the layout names the columns every account needs.
pub fn has_required_columns(layout: &Vec<String>) -> (r: bool)
    ensures
        r == required_columns(layout.deep_view()),
{
    let email = String::from_str("email");
    let secret = String::from_str("secret");
    let name = String::from_str("name");
    contains_text(layout, &email) && contains_text(layout, &secret) && contains_text(layout, &name)
}

/// Whether `v` holds `t`.
fn contains_text(v: &Vec<String>, t: &String) -> (r: bool)
    ensures
        r == v.deep_view().contains(t@),
{
    let mut i: usize = 0;
    while i < v.len()
        invariant
            i <= v.len(),
            forall|k: int| 0 <= k < i ==> v.deep_view()[k] != t@,
        decreases v.len() - i,
    {
        if v[i] == *t {
            assert(v.deep_view()[i as int] == t@);
            return true;
        }
        i = i + 1;
    }
    false
}

/// The CSV delimiter: `,` by default or for an empty text, a tab for the
/// text `\t`, else the first byte of the text.
pub open spec fn delimiter_spec(delimiter: Option<String>) -> u8 {
    match delimiter {
        None => ',' as u8,
        Some(d) => if d@ == seq!['\\', 't'] {
            '\t' as u8
        } else if d@.len() == 0 {
            ',' as u8
        } else {
            vstd::utf8::encode_utf8(d@)[0]
        },
    }
}

/// The CSV delimiter named by the option given.
pub fn csv_delimiter(delimiter: &Option<String>) -> (r: u8)
    ensures
        r == delimiter_spec(*delimiter),
{
    match delimiter {
        None => ',' as u8,
        Some(d) => {
            let s = d.as_str();
            let n = s.unicode_len();
            if n == 2 && s.get_char(0) == '\\' && s.get_char(1) == 't' {
                assert(d@ =~= seq!['\\', 't']);
                '\t' as u8
            } else if n == 0 {
                ',' as u8
            } else {
                let bytes = s.as_bytes();
                proof {
                    vstd::utf8::encode_utf8_first_scalar(s@);
                }
                bytes[0]
            }
        },
    }
}

/// The position of the last `c` in `s`, if any.
pub open spec fn last_index(s: Seq<char>, c: char) -> Option<int>
    decreases s.len(),
{
    if s.len() == 0 {
        None
    } else if s.last() == c {
        Some(s.len() - 1)
    } else {
        last_index(s.drop_last(), c)
    }
}

proof fn lemma_last_index(s: Seq<char>, c: char, i: int)
    requires
        0 <= i < s.len(),
        s[i] == c,
        forall|j: int| i < j < s.len() ==> s[j] != c,
    ensures
        last_index(s, c) == Some(i),
    decreases s.len(),
{
    if i < s.len() - 1 {
        lemma_last_index(s.drop_last(), c, i);
    }
}

proof fn lemma_last_index_none(s: Seq<char>, c: char)
    requires
        !s.contains(c),
    ensures
        last_index(s, c) is None,
    decreases s.len(),
{
    if s.len() > 0 {
        assert(s[s.len() - 1] == s.last());
        assert(!s.drop_last().contains(c)) by {
            if s.drop_last().contains(c) {
                let j = choose|j: int| 0 <= j < s.drop_last().len() && s.drop_last()[j] == c;
                assert(s[j] == c);
            }
        }
        lemma_last_index_none(s.drop_last(), c);
    }
}

/// The domain of an e-mail address: what follows its last `@`, in ASCII
/// lower case; none without an `@`.
pub open spec fn email_domain_spec(email: Seq<char>) -> Option<Seq<char>> {
    match last_index(email, '@') {
        Some(i) => Some(email.skip(i + 1).map_values(|c: char| lower_char(c))),
        None => None,
    }
}

/// The domain of an e-mail address, in ASCII lower case.
pub fn email_domain(email: &str) -> (r: Option<String>)
    ensures
        r.deep_view() == email_domain_spec(email@),
{
    match last_char(email, '@') {
        Some(i) => {
            proof {
                lemma_last_index(email@, '@', i as int);
            }
            let n = email.unicode_len();
            let rest = email.substring_char(i + 1, n);
            assert(rest@ =~= email@.skip(i + 1));
            Some(lowercase_ascii(rest))
        },
        None => {
            proof {
                lemma_last_index_none(email@, '@');
            }
            None
        },
    }
}

/// Whether column `i` of the record is under the heading `key`.
pub open spec fn is_column(layout: Seq<Seq<char>>, record: Seq<Seq<char>>, key: Seq<char>, i: int) -> bool {
    0 <= i < layout.len() && i < record.len() && layout[i] == key
}

/// The value of the first of the first `n` columns under `key`.
pub open spec fn first_value(
    layout: Seq<Seq<char>>,
    record: Seq<Seq<char>>,
    key: Seq<char>,
    n: int,
) -> Option<Seq<char>>
    decreases n,
{
    if n <= 0 {
        None
    } else {
        match first_value(layout, record, key, n - 1) {
            Some(v) => Some(v),
            None => if is_column(layout, record, key, n - 1) {
                Some(record[n - 1])
            } else {
                None
            },
        }
    }
}

/// The value of the last of the first `n` columns under `key`.
pub open spec fn last_value(
    layout: Seq<Seq<char>>,
    record: Seq<Seq<char>>,
    key: Seq<char>,
    n: int,
) -> Option<Seq<char>>
    decreases n,
{
    if n <= 0 {
        None
    } else if is_column(layout, record, key, n - 1) {
        Some(record[n - 1])
    } else {
        last_value(layout, record, key, n - 1)
    }
}

/// An account to create, as read from one CSV record.
#[derive(Clone, Debug, PartialEq, Eq)]
pub struct NewAccount {
    pub email: String,
    pub secret: String,
    pub name: String,
    pub description: Option<String>,
    pub quota: Option<u32>,
    pub timezone: Option<String>,
}

/// Whether `a` is the account that the record describes: the e-mail
/// address from the first `email` column; every other field from the last
/// column under its heading; a quota that is not a number is left out.
pub open spec fn account_as(layout: Seq<Seq<char>>, record: Seq<Seq<char>>, a: NewAccount) -> bool {
    let n = layout.len() as int;
    &&& first_value(layout, record, "email"@, n) == Some(a.email@)
    &&& last_value(layout, record, "secret"@, n) == Some(a.secret@)
    &&& last_value(layout, record, "name"@, n) == Some(a.name@)
    &&& a.description.deep_view() == last_value(layout, record, "description"@, n)
    &&& a.timezone.deep_view() == last_value(layout, record, "timezone"@, n)
    &&& a.quota == match last_value(layout, record, "quota"@, n) {
        Some(q) => parse_u32_spec(q),
        None => None,
    }
}

/// Reads the account that a CSV record describes under the column layout;
/// none when the record lacks an e-mail address, a secret or a name.
pub fn account_from_record(layout: &Vec<String>, record: &Vec<String>) -> (r: Option<NewAccount>)
    ensures
        r is None <==> {
            let n = layout.len() as int;
            ||| first_value(layout.deep_view(), record.deep_view(), "email"@, n) is None
            ||| last_value(layout.deep_view(), record.deep_view(), "secret"@, n) is None
            ||| last_value(layout.deep_view(), record.deep_view(), "name"@, n) is None
        },
        r is Some ==> account_as(layout.deep_view(), record.deep_view(), r->Some_0),
{
    let ghost l = layout.deep_view();
    let ghost rec = record.deep_view();
    let k_email = String::from_str("email");
    let k_secret = String::from_str("secret");
    let k_name = String::from_str("name");
    let k_description = String::from_str("description");
    let k_quota = String::from_str("quota");
    let k_timezone = String::from_str("timezone");
    let mut email: Option<String> = None;
    let mut secret: Option<String> = None;
    let mut name: Option<String> = None;
    let mut description: Option<String> = None;
    let mut quota: Option<String> = None;
    let mut timezone: Option<String> = None;
    let mut i: usize = 0;
    while i < layout.len()
        invariant
            l == layout.deep_view(),
            rec == record.deep_view(),
            i <= layout.len(),
            k_email@ == "email"@,
            k_secret@ == "secret"@,
            k_name@ == "name"@,
            k_description@ == "description"@,
            k_quota@ == "quota"@,
            k_timezone@ == "timezone"@,
            email.deep_view() == first_value(l, rec, "email"@, i as int),
            secret.deep_view() == last_value(l, rec, "secret"@, i as int),
            name.deep_view() == last_value(l, rec, "name"@, i as int),
            description.deep_view() == last_value(l, rec, "description"@, i as int),
            quota.deep_view() == last_value(l, rec, "quota"@, i as int),
            timezone.deep_view() == last_value(l, rec, "timezone"@, i as int),
        decreases layout.len() - i,
    {
        proof {
            reveal_strlit("email");
            reveal_strlit("secret");
            reveal_strlit("name");
            reveal_strlit("description");
            reveal_strlit("quota");
            reveal_strlit("timezone");
            assert("quota"@[0] != "email"@[0]);
        }
        if i < record.len() {
            let h = &layout[i];
            assert(l[i as int] == h@ && rec[i as int] == record[i as int]@);
            if *h == k_email {
                if email.is_none() {
                    email = Some(record[i].clone());
                }
            } else if *h == k_secret {
                secret = Some(record[i].clone());
            } else if *h == k_name {
                name = Some(record[i].clone());
            } else if *h == k_description {
                description = Some(record[i].clone());
            } else if *h == k_quota {
                quota = Some(record[i].clone());
            } else if *h == k_timezone {
                timezone = Some(record[i].clone());
            }
        }
        i = i + 1;
    }
    match (email, secret, name) {
        (Some(email), Some(secret), Some(name)) => {
            let quota = match &quota {
                Some(q) => parse_u32(q.as_str()),
                None => None,
            };
            Some(NewAccount { email, secret, name, description, quota, timezone })
        },
        _ => None,
    }
}

/// `ds` with `d` appended, unless it already holds it.
pub open spec fn add_domain(ds: Seq<Seq<char>>, d: Option<Seq<char>>) -> Seq<Seq<char>> {
    match d {
        Some(d) => if ds.contains(d) {
            ds
        } else {
            ds.push(d)
        },
        None => ds,
    }
}

/// The distinct domains of the e-mail addresses of the first `n` records,
/// in the order in which they first appear.
pub open spec fn domains_spec(layout: Seq<Seq<char>>, records: Seq<Seq<Seq<char>>>, n: int) -> Seq<
    Seq<char>,
>
    decreases n,
{
    if n <= 0 {
        Seq::empty()
    } else {
        add_domain(
            domains_spec(layout, records, n - 1),
            match first_value(layout, records[n - 1], "email"@, layout.len() as int) {
                Some(e) => email_domain_spec(e),
                None => None,
            },
        )
    }
}

/// The e-mail address of a record: its first `email` column.
pub fn record_email(layout: &Vec<String>, record: &Vec<String>) -> (r: Option<String>)
    ensures
        r.deep_view() == first_value(layout.deep_view(), record.deep_view(), "email"@, layout.len() as int),
{
    let key = String::from_str("email");
    let mut i: usize = 0;
    while i < layout.len()
        invariant
            i <= layout.len(),
            key@ == "email"@,
            first_value(layout.deep_view(), record.deep_view(), "email"@, i as int) is None,
        decreases layout.len() - i,
    {
        assert(layout.deep_view()[i as int] == layout[i as int]@);
        if i < record.len() && layout[i] == key {
            assert(record.deep_view()[i as int] == record[i as int]@);
            proof {
                lemma_first_value_stays(layout.deep_view(), record.deep_view(), "email"@, i as int + 1, layout.len() as int);
            }
            return Some(record[i].clone());
        }
        i = i + 1;
    }
    None
}

proof fn lemma_first_value_stays(
    layout: Seq<Seq<char>>,
    record: Seq<Seq<char>>,
    key: Seq<char>,
    a: int,
    b: int,
)
    requires
        0 <= a <= b,
        first_value(layout, record, key, a) is Some,
    ensures
        first_value(layout, record, key, b) == first_value(layout, record, key, a),
    decreases b - a,
{
    if a < b {
        lemma_first_value_stays(layout, record, key, a, b - 1);
    }
}

/// The domains that the accounts of the records need, each once, in the
/// order in which they first appear.
pub fn collect_domains(layout: &Vec<String>, records: &Vec<Vec<String>>) -> (r: Vec<String>)
    ensures
        r.deep_view() == domains_spec(layout.deep_view(), records.deep_view(), records.len() as int),
{
    let mut ds: Vec<String> = Vec::new();
    let mut k: usize = 0;
    while k < records.len()
        invariant
            k <= records.len(),
            ds.deep_view() == domains_spec(layout.deep_view(), records.deep_view(), k as int),
        decreases records.len() - k,
    {
        assert(records.deep_view()[k as int] == records[k as int].deep_view());
        let d = match record_email(layout, &records[k]) {
            Some(e) => email_domain(e.as_str()),
            None => None,
        };
        match d {
            Some(d) => {
                if !contains_text(&ds, &d) {
                    let ghost before = ds.deep_view();
                    ds.push(d);
                    assert(ds.deep_view() =~= before.push(d@));
                }
            },
            None => {},
        }
        k = k + 1;
    }
    ds
}

/// The header row that the CSV reader gives for `data`, or its error.
pub uninterp spec fn csv_header_row(data: Seq<u8>, delimiter: u8) -> Result<
    Seq<Seq<char>>,
    Seq<char>,
>;

/// The records that the CSV reader gives for `data`, or its error.
pub uninterp spec fn csv_rows(data: Seq<u8>, delimiter: u8, has_headers: bool) -> Result<
    Seq<Seq<Seq<char>>>,
    Seq<char>,
>;

/// Relies on `csv::Reader::headers` (flexible records, fields trimmed): the
/// header row of the data, or the reader's error, a function of the bytes
/// and the delimiter alone.
#[verifier::external_body]
fn read_csv_headers(data: &Vec<u8>, delimiter: u8) -> (r: Result<Vec<String>, String>)
    ensures
        match r {
            Ok(h) => csv_header_row(data@, delimiter) == Ok::<Seq<Seq<char>>, Seq<char>>(h.deep_view()),
            Err(e) => csv_header_row(data@, delimiter) == Err::<Seq<Seq<char>>, Seq<char>>(e@),
        },
{
    csv::ReaderBuilder::new().flexible(true).trim(csv::Trim::All).delimiter(delimiter)
        .from_reader(&data[..]).headers().map(|h| h.iter().map(|f| f.to_string()).collect())
        .map_err(|e| e.to_string())
}

/// Relies on `csv::Reader::records` (flexible records, fields trimmed): the
/// records of the data after the header row if there is one, or the
/// reader's first error, a function of the arguments alone.
#[verifier::external_body]
fn read_csv_records(data: &Vec<u8>, delimiter: u8, has_headers: bool) -> (r: Result<
    Vec<Vec<String>>,
    String,
>)
    ensures
        match r {
            Ok(rs) => csv_rows(data@, delimiter, has_headers) == Ok::<
                Seq<Seq<Seq<char>>>,
                Seq<char>,
            >(rs.deep_view()),
            Err(e) => csv_rows(data@, delimiter, has_headers) == Err::<
                Seq<Seq<Seq<char>>>,
                Seq<char>,
            >(e@),
        },
{
    csv::ReaderBuilder::new().flexible(true).trim(csv::Trim::All).delimiter(delimiter)
        .has_headers(has_headers).from_reader(&data[..]).records()
        .map(|r| r.map(|r| r.iter().map(|f| f.to_string()).collect()))
        .collect::<Result<Vec<Vec<String>>, csv::Error>>().map_err(|e| e.to_string())
}

/// Why a CSV file of accounts cannot be imported.
#[derive(Clone, Debug, PartialEq, Eq)]
pub enum AccountsError {
    /// The CSV reader failed, with its message.
    Unreadable(String),
    /// The layout lacks one of the columns every account needs.
    MissingColumns,
    /// The file holds no record.
    NoRecords,
}

/// What a CSV file of accounts comes to: the domains to create and, per
/// record, the account to create or nothing where a field is missing.
#[derive(Clone, Debug, PartialEq, Eq)]
pub struct AccountsPlan {
    pub domains: Vec<String>,
    pub accounts: Vec<Option<NewAccount>>,
}

/// Whether `r` is the failure of the CSV reader with message `e`.
pub open spec fn unreadable_with(r: Result<AccountsPlan, AccountsError>, e: Seq<char>) -> bool {
    match r {
        Err(AccountsError::Unreadable(m)) => m@ == e,
        _ => false,
    }
}

/// The column layout in force: the file's header row, or the layout given
/// (by default the default one).
pub open spec fn layout_spec(
    data: Seq<u8>,
    delimiter: u8,
    with_headers: bool,
    layout: Option<String>,
) -> Result<Seq<Seq<char>>, Seq<char>> {
    if with_headers {
        csv_header_row(data, delimiter)
    } else {
        Ok(
            split_spec(
                match layout {
                    Some(l) => l@,
                    None => default_layout_text(),
                },
                ',',
            ),
        )
    }
}

/// Whether `r` is the account that a record comes to: one where every
/// needed field is there, nothing where one is missing.
pub open spec fn record_as(layout: Seq<Seq<char>>, record: Seq<Seq<char>>, r: Option<NewAccount>) -> bool {
    let n = layout.len() as int;
    match r {
        Some(a) => account_as(layout, record, a),
        None => first_value(layout, record, "email"@, n) is None || last_value(
            layout,
            record,
            "secret"@,
            n,
        ) is None || last_value(layout, record, "name"@, n) is None,
    }
}

/// Reads a CSV file of accounts: the layout comes from the header row or
/// is the one given; the layout must name the needed columns and the file
/// must hold a record. Each record comes to an account, or to nothing when
/// it lacks a needed field; the domains of the accounts' addresses are
/// collected unless `no_domains`.
pub fn plan_accounts(
    data: &Vec<u8>,
    delimiter: &Option<String>,
    with_headers: bool,
    layout_text: &Option<String>,
    no_domains: bool,
) -> (r: Result<AccountsPlan, AccountsError>)
    ensures
        ({
            let d = delimiter_spec(*delimiter);
            match layout_spec(data@, d, with_headers, *layout_text) {
                Err(e) => unreadable_with(r, e),
                Ok(layout) => if !required_columns(layout) {
                    r == Err::<AccountsPlan, AccountsError>(AccountsError::MissingColumns)
                } else {
                    match csv_rows(data@, d, with_headers) {
                        Err(e) => unreadable_with(r, e),
                        Ok(rows) => if rows.len() == 0 {
                            r == Err::<AccountsPlan, AccountsError>(AccountsError::NoRecords)
                        } else {
                            &&& r is Ok
                            &&& r->Ok_0.accounts.len() == rows.len()
                            &&& forall|i: int|
                                0 <= i < rows.len() ==> record_as(
                                    layout,
                                    rows[i],
                                    #[trigger] r->Ok_0.accounts[i],
                                )
                            &&& r->Ok_0.domains.deep_view() == if no_domains {
                                Seq::empty()
                            } else {
                                domains_spec(layout, rows, rows.len() as int)
                            }
                        },
                    }
                },
            }
        }),
{
    let d = csv_delimiter(delimiter);
    let layout = if with_headers {
        match read_csv_headers(data, d) {
            Ok(h) => h,
            Err(e) => {
                return Err(AccountsError::Unreadable(e));
            },
        }
    } else {
        column_layout(layout_text)
    };
    if !has_required_columns(&layout) {
        return Err(AccountsError::MissingColumns);
    }
    let records = match read_csv_records(data, d, with_headers) {
        Ok(rs) => rs,
        Err(e) => {
            return Err(AccountsError::Unreadable(e));
        },
    };
    if records.len() == 0 {
        return Err(AccountsError::NoRecords);
    }
    let domains = if no_domains {
        Vec::new()
    } else {
        collect_domains(&layout, &records)
    };
    let mut accounts: Vec<Option<NewAccount>> = Vec::new();
    let mut i: usize = 0;
    while i < records.len()
        invariant
            i <= records.len(),
            accounts.len() == i,
            forall|k: int|
                0 <= k < i ==> record_as(
                    layout.deep_view(),
                    records.deep_view()[k],
                    #[trigger] accounts[k],
                ),
        decreases records.len() - i,
    {
        assert(records.deep_view()[i as int] == records[i as int].deep_view());
        let a = account_from_record(&layout, &records[i]);
        accounts.push(a);
        i = i + 1;
    }
    assert(domains.deep_view() =~= if no_domains {
        Seq::<Seq<char>>::empty()
    } else {
        domains_spec(layout.deep_view(), records.deep_view(), records.len() as int)
    });
    Ok(AccountsPlan { domains, accounts })
}

} // verus!
