//! Small decisions around principals (accounts, domains, groups, lists):
//! picking the one principal a lookup found, reading credentials, naming
//! the properties shown in tables.
use vstd::prelude::*;
use vstd::string::*;

verus! {

/// Why a lookup by e-mail address or domain name gave no single principal.
#[derive(Clone, Copy, Debug, PartialEq, Eq, Structural)]
pub enum LookupError {
    /// Nothing matched.
    NotFound,
    /// More than one principal matched.
    Ambiguous,
}

/// The id of the one principal that a lookup found.
pub fn single_id(ids: Vec<String>) -> (r: Result<String, LookupError>)
    ensures
        ids.len() == 1 <==> r is Ok,
        r is Ok ==> r->Ok_0 == ids@[0],
        ids.len() == 0 <==> r == Err::<String, LookupError>(LookupError::NotFound),
        ids.len() > 1 <==> r == Err::<String, LookupError>(LookupError::Ambiguous),
{
    let mut ids = ids;
    if ids.len() == 0 {
        Err(LookupError::NotFound)
    } else if ids.len() > 1 {
        Err(LookupError::Ambiguous)
    } else {
        match ids.pop() {
            Some(id) => Ok(id),
            None => Err(LookupError::NotFound),
        }
    }
}

/// The position of the first `c` in `s`, if any.
pub fn first_char(s: &str, c: char) -> (r: Option<usize>)
    ensures
        match r {
            Some(i) => i < s@.len() && s@[i as int] == c && forall|j: int|
                0 <= j < i ==> s@[j] != c,
            None => !s@.contains(c),
        },
{
    let n = s.unicode_len();
    let mut i: usize = 0;
    while i < n
        invariant
            n == s@.len(),
            i <= n,
            forall|j: int| 0 <= j < i ==> s@[j] != c,
        decreases n - i,
    {
        if s.get_char(i) == c {
            return Some(i);
        }
        i = i + 1;
    }
    None
}

/// The position of the last `c` in `s`, if any.
pub fn last_char(s: &str, c: char) -> (r: Option<usize>)
    ensures
        match r {
            Some(i) => i < s@.len() && s@[i as int] == c && forall|j: int|
                i < j < s@.len() ==> s@[j] != c,
            None => !s@.contains(c),
        },
{
    let n = s.unicode_len();
    let mut i: usize = n;
    while i > 0
        invariant
            n == s@.len(),
            i <= n,
            forall|j: int| i <= j < n ==> s@[j] != c,
        decreases i,
    {
        if s.get_char(i - 1) == c {
            return Some(i - 1);
        }
        i = i - 1;
    }
    None
}

/// The account and secret of credentials given as `account:secret`, split
/// at the first colon; without a colon the whole text is the secret of the
/// `admin` account.
pub fn split_credentials(credentials: &str) -> (r: (String, String))
    ensures
        match first_index(credentials@, ':') {
            Some(i) => r.0@ == credentials@.take(i) && r.1@ == credentials@.skip(i + 1),
            None => r.0@ == "admin"@ && r.1@ == credentials@,
        },
{
    match first_char(credentials, ':') {
        Some(i) => {
            let n = credentials.unicode_len();
            let account = credentials.substring_char(0, i).to_owned();
            let secret = credentials.substring_char(i + 1, n).to_owned();
            proof {
                lemma_first_index(credentials@, ':', i as int);
            }
            assert(credentials@.take(i as int) =~= credentials@.subrange(0, i as int));
            assert(credentials@.skip(i + 1) =~= credentials@.subrange(i + 1, n as int));
            (account, secret)
        },
        None => {
            proof {
                lemma_first_index_none(credentials@, ':');
            }
            (String::from_str("admin"), credentials.to_owned())
        },
    }
}

/// The position of the first `c` in `s`, if any.
pub open spec fn first_index(s: Seq<char>, c: char) -> Option<int>
    decreases s.len(),
{
    if s.len() == 0 {
        None
    } else {
        match first_index(s.drop_last(), c) {
            Some(i) => Some(i),
            None => if s.last() == c {
                Some(s.len() - 1)
            } else {
                None
            },
        }
    }
}

proof fn lemma_first_index(s: Seq<char>, c: char, i: int)
    requires
        0 <= i < s.len(),
        s[i] == c,
        forall|j: int| 0 <= j < i ==> s[j] != c,
    ensures
        first_index(s, c) == Some(i),
    decreases s.len(),
{
    if i < s.len() - 1 {
        lemma_first_index(s.drop_last(), c, i);
    } else {
        lemma_first_index_none(s.drop_last(), c);
    }
}

proof fn lemma_first_index_none(s: Seq<char>, c: char)
    requires
        forall|j: int| 0 <= j < s.len() ==> s[j] != c,
    ensures
        first_index(s, c) is None,
    decreases s.len(),
{
    if s.len() > 0 {
        lemma_first_index_none(s.drop_last(), c);
    }
}

/// A property of a principal, as shown in tables.
#[derive(Clone, Copy, Debug, PartialEq, Eq, Structural)]
pub enum PrincipalProperty {
    Id,
    Type,
    Name,
    Description,
    Email,
    Timezone,
    Capabilities,
    Aliases,
    Secret,
    Dkim,
    Quota,
    Picture,
    Members,
    Acl,
}

impl PrincipalProperty {
    /// The column heading of the property.
    pub open spec fn table_name_spec(self) -> Seq<char> {
        match self {
            PrincipalProperty::Id => "Id"@,
            PrincipalProperty::Type => "Type"@,
            PrincipalProperty::Name => "Name"@,
            PrincipalProperty::Description => "Description"@,
            PrincipalProperty::Email => "E-mail"@,
            PrincipalProperty::Timezone => "Timezone"@,
            PrincipalProperty::Capabilities => "Capabilities"@,
            PrincipalProperty::Aliases => "Aliases"@,
            PrincipalProperty::Secret => "Secret"@,
            PrincipalProperty::Dkim => "DKIM"@,
            PrincipalProperty::Quota => "Quota"@,
            PrincipalProperty::Picture => "Picture"@,
            PrincipalProperty::Members => "Members"@,
            PrincipalProperty::Acl => "ACL"@,
        }
    }

    /// The column heading of the property.
    pub fn table_name(&self) -> (r: &'static str)
        ensures
            r@ == self.table_name_spec(),
    {
        match self {
            PrincipalProperty::Id => "Id",
            PrincipalProperty::Type => "Type",
            PrincipalProperty::Name => "Name",
            PrincipalProperty::Description => "Description",
            PrincipalProperty::Email => "E-mail",
            PrincipalProperty::Timezone => "Timezone",
            PrincipalProperty::Capabilities => "Capabilities",
            PrincipalProperty::Aliases => "Aliases",
            PrincipalProperty::Secret => "Secret",
            PrincipalProperty::Dkim => "DKIM",
            PrincipalProperty::Quota => "Quota",
            PrincipalProperty::Picture => "Picture",
            PrincipalProperty::Members => "Members",
            PrincipalProperty::Acl => "ACL",
        }
    }
}

} // verus!
