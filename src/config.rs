//! Accounts, certificates and the mail directory, and their editing rules.
use vstd::prelude::*;

verus! {

/// `s` with each match of the non-empty `from` replaced by `to`, matches
/// taken from the left without overlap.
pub open spec fn replaced(s: Seq<char>, from: Seq<char>, to: Seq<char>) -> Seq<char>
    recommends
        from.len() > 0,
    decreases s.len(),
{
    if from.len() == 0 || s.len() == 0 {
        s
    } else if s.len() >= from.len() && s.subrange(0, from.len() as int) == from {
        to + replaced(s.subrange(from.len() as int, s.len() as int), from, to)
    } else {
        seq![s[0]] + replaced(s.drop_first(), from, to)
    }
}

/// Relies on `str::replace`: all non-overlapping matches of `from`, from the
/// left, replaced by `to`.
#[verifier::external_body]
fn replace_all(s: &str, from: &str, to: &str) -> (r: String)
    requires
        from@.len() > 0,
    ensures
        r@ == replaced(s@, from@, to@),
{
    s.replace(from, to)
}

/// A remote mail account; the user name identifies it.
pub struct Account {
    pub host: String,
    pub port: u16,
    pub username: String,
    pub password: String,
}

/// A named certificate.
pub struct Certificate {
    pub name: String,
    pub cert: String,
}

/// The configuration: accounts, certificates and the base mail directory,
/// where `${HOME}` stands for the user's home directory.
pub struct Config {
    pub accounts: Vec<Account>,
    pub certificates: Vec<Certificate>,
    pub mail_dir: String,
}

pub open spec fn home_marker() -> Seq<char> {
    seq!['$', '{', 'H', 'O', 'M', 'E', '}']
}

pub open spec fn default_mail_dir() -> Seq<char> {
    home_marker() + seq!['/', 'm', 'a', 'i', 'l']
}

/// Some account of `s` has the user name `name`.
pub open spec fn has_account(s: Seq<Account>, name: Seq<char>) -> bool {
    exists|i: int| 0 <= i < s.len() && s[i].username@ == name
}

/// Some certificate of `s` has the name `name`.
pub open spec fn has_certificate(s: Seq<Certificate>, name: Seq<char>) -> bool {
    exists|i: int| 0 <= i < s.len() && s[i].name@ == name
}

pub open spec fn accounts_without(s: Seq<Account>, name: Seq<char>) -> Seq<Account> {
    s.filter(|a: Account| a.username@ != name)
}

pub open spec fn certificates_without(s: Seq<Certificate>, name: Seq<char>) -> Seq<Certificate> {
    s.filter(|c: Certificate| c.name@ != name)
}

impl Config {
    /// The configuration that was read, or, where none was, one without
    /// accounts or certificates and with the mail directory `${HOME}/mail`.
    pub fn load(found: Option<Config>) -> (r: Config)
        ensures
            match found {
                Some(c) => r == c,
                None => r.accounts@.len() == 0 && r.certificates@.len() == 0 && r.mail_dir@
                    == default_mail_dir(),
            },
    {
        match found {
            Some(c) => c,
            None => {
                proof {
                    reveal_strlit("${HOME}/mail");
                    assert("${HOME}/mail"@ =~= default_mail_dir());
                }
                Config {
                    accounts: Vec::new(),
                    certificates: Vec::new(),
                    mail_dir: "${HOME}/mail".to_owned(),
                }
            },
        }
    }

    /// Adds `account` unless an account with its user name is there.
    pub fn add_account(&mut self, account: Account)
        ensures
            final(self).accounts@ == (if has_account(old(self).accounts@, account.username@) {
                old(self).accounts@
            } else {
                old(self).accounts@.push(account)
            }),
            final(self).certificates == old(self).certificates,
            final(self).mail_dir == old(self).mail_dir,
    {
        let mut i: usize = 0;
        while i < self.accounts.len()
            invariant
                i <= self.accounts@.len(),
                forall|j: int| 0 <= j < i ==> self.accounts@[j].username@ != account.username@,
            decreases self.accounts@.len() - i,
        {
            if self.accounts[i].username == account.username {
                return;
            }
            i = i + 1;
        }
        self.accounts.push(account);
    }

    /// Removes every account with the user name `email`.
    pub fn remove_account(&mut self, email: String)
        ensures
            final(self).accounts@ == accounts_without(old(self).accounts@, email@),
            final(self).certificates == old(self).certificates,
            final(self).mail_dir == old(self).mail_dir,
    {
        let mut rest: Vec<Account> = Vec::new();
        std::mem::swap(&mut rest, &mut self.accounts);
        let ghost orig = rest@;
        let n: usize = rest.len();
        let mut i: usize = 0;
        while rest.len() > 0
            invariant
                i <= n,
                rest@ == orig.subrange(i as int, n as int),
                n == orig.len(),
                self.accounts@ == accounts_without(orig.subrange(0, i as int), email@),
                self.certificates == old(self).certificates,
                self.mail_dir == old(self).mail_dir,
            decreases rest@.len(),
        {
            let a = rest.remove(0);
            proof {
                reveal(Seq::filter);
                assert(orig.subrange(0, i + 1).drop_last() =~= orig.subrange(0, i as int));
                assert(rest@ =~= orig.subrange(i + 1, n as int));
            }
            if a.username != email {
                self.accounts.push(a);
            }
            i = i + 1;
        }
        proof {
            assert(orig.subrange(0, n as int) =~= orig);
        }
    }

    /// Adds a certificate unless one with the name `name` is there.
    pub fn add_certificate(&mut self, name: String, cert: String)
        ensures
            final(self).certificates@ == (if has_certificate(old(self).certificates@, name@) {
                old(self).certificates@
            } else {
                old(self).certificates@.push(Certificate { name, cert })
            }),
            final(self).accounts == old(self).accounts,
            final(self).mail_dir == old(self).mail_dir,
    {
        let mut i: usize = 0;
        while i < self.certificates.len()
            invariant
                i <= self.certificates@.len(),
                forall|j: int| 0 <= j < i ==> self.certificates@[j].name@ != name@,
            decreases self.certificates@.len() - i,
        {
            if self.certificates[i].name == name {
                return;
            }
            i = i + 1;
        }
        self.certificates.push(Certificate { name, cert });
    }

    /// Removes every certificate with the name `name`.
    pub fn remove_certificate(&mut self, name: String)
        ensures
            final(self).certificates@ == certificates_without(old(self).certificates@, name@),
            final(self).accounts == old(self).accounts,
            final(self).mail_dir == old(self).mail_dir,
    {
        let mut rest: Vec<Certificate> = Vec::new();
        std::mem::swap(&mut rest, &mut self.certificates);
        let ghost orig = rest@;
        let n: usize = rest.len();
        let mut i: usize = 0;
        while rest.len() > 0
            invariant
                i <= n,
                rest@ == orig.subrange(i as int, n as int),
                n == orig.len(),
                self.certificates@ == certificates_without(orig.subrange(0, i as int), name@),
                self.accounts == old(self).accounts,
                self.mail_dir == old(self).mail_dir,
            decreases rest@.len(),
        {
            let c = rest.remove(0);
            proof {
                reveal(Seq::filter);
                assert(orig.subrange(0, i + 1).drop_last() =~= orig.subrange(0, i as int));
                assert(rest@ =~= orig.subrange(i + 1, n as int));
            }
            if c.name != name {
                self.certificates.push(c);
            }
            i = i + 1;
        }
        proof {
            assert(orig.subrange(0, n as int) =~= orig);
        }
    }

    /// The mail directory with `${HOME}` replaced by `home`.
    pub fn get_mail_dir(&self, home: &str) -> (r: String)
        ensures
            r@ == replaced(self.mail_dir@, home_marker(), home@),
    {
        proof {
            reveal_strlit("${HOME}");
            assert("${HOME}"@ =~= home_marker());
            assert(home_marker().len() == 7);
        }
        replace_all(&self.mail_dir, "${HOME}", home)
    }
}

} // verus!
