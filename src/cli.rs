//! The commands that the administration client takes.
use vstd::prelude::*;

verus! {

/// The client's command line: a command, the server's base URL and,
/// optionally, the administrator's credentials.
#[derive(Clone, Debug, PartialEq, Eq)]
pub struct Cli {
    pub command: Commands,
    pub url: String,
    pub credentials: Option<String>,
}

#[derive(Clone, Debug, PartialEq, Eq)]
pub enum Commands {
    /// Manage user accounts
    Account(AccountCommands),
    /// Manage domains
    Domain(DomainCommands),
    /// Manage mailing lists
    List(ListCommands),
    /// Manage groups
    Group(GroupCommands),
    /// Import accounts, domains and messages
    Import(ImportCommands),
}

#[derive(Clone, Debug, PartialEq, Eq)]
pub enum AccountCommands {
    /// Create a new user account
    Create {
        email: String,
        password: String,
        name: String,
        description: Option<String>,
        quota: Option<u32>,
        timezone: Option<String>,
        email_aliases: Option<Vec<String>>,
    },
    /// Update an existing user account
    Update {
        email: String,
        password: Option<String>,
        name: Option<String>,
        description: Option<String>,
        quota: Option<u32>,
        timezone: Option<String>,
    },
    /// Add e-mail aliases to a user account
    AddAlias { email: String, aliases: Vec<String> },
    /// Remove e-mail aliases from a user account
    RemoveAlias { email: String, aliases: Vec<String> },
    /// Delete an existing user account
    Delete { email: String },
    /// Display an existing user account
    Display { email: String },
    /// List all user accounts
    List { filter: Option<String> },
}

#[derive(Clone, Debug, PartialEq, Eq)]
pub enum DomainCommands {
    /// Create a new domain; the DKIM key is read from the file at
    /// `cert_dkim`.
    Create {
        name: String,
        description: Option<String>,
        cert_dkim: Option<String>,
        selector_dkim: Option<String>,
        expiration_dkim: Option<u64>,
    },
    /// Update an existing domain
    Update {
        name: String,
        description: Option<String>,
        cert_dkim: Option<String>,
        selector_dkim: Option<String>,
        expiration_dkim: Option<u64>,
    },
    /// Delete an existing domain
    Delete { name: String },
    /// Display an existing domain
    Display { name: String },
    /// List all domains
    List { filter: Option<String> },
}

#[derive(Clone, Debug, PartialEq, Eq)]
pub enum ListCommands {
    /// Create a new mailing list
    Create { email: String, name: String, description: Option<String> },
    /// Update an existing mailing list
    Update { email: String, name: Option<String>, description: Option<String> },
    /// Add members to a mailing list
    AddMembers { email: String, members: Vec<String> },
    /// Remove members from a mailing list
    RemoveMembers { email: String, members: Vec<String> },
    /// List all mailing lists
    List { filter: Option<String> },
    /// Display an existing mailing list
    Display { email: String },
}

#[derive(Clone, Debug, PartialEq, Eq)]
pub enum GroupCommands {
    /// Create a group
    Create { email: String, name: String, description: Option<String> },
    /// Update an existing group
    Update { email: String, name: Option<String>, description: Option<String> },
    /// Add members to a group
    AddMembers { email: String, members: Vec<String> },
    /// Remove members from a group
    RemoveMembers { email: String, members: Vec<String> },
    /// Display an existing group
    Display { email: String },
    /// List all groups
    List { filter: Option<String> },
}

#[derive(Clone, Debug, PartialEq, Eq)]
pub enum ImportCommands {
    /// Bulk import user accounts from a CSV file (`-` for standard input)
    Accounts {
        delimiter: Option<String>,
        with_headers: bool,
        column_layout: Option<String>,
        no_domains: bool,
        path: String,
    },
    /// Import messages and folders from a mailbox archive (`-` for standard
    /// input, mbox only), using `num_threads` upload workers
    Messages { format: MailboxFormat, num_threads: Option<usize>, email: String, path: String },
}

/// The format of a mailbox archive.
#[derive(Clone, Copy, Debug, PartialEq, Eq, PartialOrd, Ord, Structural)]
pub enum MailboxFormat {
    /// A single mbox file
    Mbox,
    /// Maildir and Maildir++: sub-folders named `.a.b`
    Maildir,
    /// Maildir with nested folder directories
    MaildirNested,
}

impl MailboxFormat {
    /// The character that separates the levels of a folder name.
    pub fn separator(&self) -> (r: char)
        ensures
            r == if *self == MailboxFormat::Maildir {
                '.'
            } else {
                '/'
            },
    {
        match self {
            MailboxFormat::Maildir => '.',
            _ => '/',
        }
    }

    /// The prefix that marks a sub-folder directory: `.` for Maildir++,
    /// none for nested folders.
    pub fn subfolder_prefix(&self) -> (r: Option<char>)
        ensures
            r == if *self == MailboxFormat::Maildir {
                Some('.')
            } else {
                None
            },
    {
        match self {
            MailboxFormat::Maildir => Some('.'),
            _ => None,
        }
    }

    /// Whether the archive is a directory tree rather than a single file.
    pub fn is_maildir(&self) -> (r: bool)
        ensures
            r == (*self != MailboxFormat::Mbox),
    {
        match self {
            MailboxFormat::Mbox => false,
            _ => true,
        }
    }
}

} // verus!
