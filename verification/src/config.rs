//! The user's settings.
use vstd::prelude::*;

use crate::text::{
    chars_of, lemma_trim_end_fixed, lemma_trim_idempotent, lemma_trim_start_fixed, trim,
    trim_chars, trimmed,
};
use crate::DEFAULT_SSID;

verus! {

/// Account, password, wireless network and autostart choice.
#[derive(Clone, Debug, PartialEq, Eq)]
pub struct Configuration {
    pub username: String,
    pub password: String,
    pub ssid: String,
    pub launch_at_login: bool,
}

/// The network joined when the settings name none.
pub open spec fn default_ssid_spec() -> Seq<char> {
    DEFAULT_SSID@
}

fn default_ssid() -> (s: String)
    ensures
        s@ == default_ssid_spec(),
{
    DEFAULT_SSID.to_owned()
}

impl Default for Configuration {
    fn default() -> (c: Self)
        ensures
            c.username@ == Seq::<char>::empty(),
            c.password@ == Seq::<char>::empty(),
            c.ssid@ == default_ssid_spec(),
            c.launch_at_login,
    {
        Configuration {
            username: String::new(),
            password: String::new(),
            ssid: default_ssid(),
            launch_at_login: true,
        }
    }
}

/// The network name after normalisation: trimmed, or the default network when empty.
pub open spec fn normalized_ssid(ssid: Seq<char>) -> Seq<char> {
    if trim(ssid).len() == 0 {
        default_ssid_spec()
    } else {
        trim(ssid)
    }
}

/// Whether the settings hold an account name (not only white space) and a password.
pub open spec fn credentials_present_spec(c: Configuration) -> bool {
    trim(c.username@).len() > 0 && c.password@.len() > 0
}

impl Configuration {
    /// Trims the account name and the network name; an empty network name becomes
    /// the default network. The password and the autostart choice are kept.
    pub fn normalize(&mut self)
        ensures
            final(self).username@ == trim(old(self).username@),
            final(self).ssid@ == normalized_ssid(old(self).ssid@),
            final(self).password == old(self).password,
            final(self).launch_at_login == old(self).launch_at_login,
    {
        self.username = trimmed(self.username.as_str());
        let ssid = trimmed(self.ssid.as_str());
        if ssid.as_str().is_empty() {
            self.ssid = default_ssid();
        } else {
            self.ssid = ssid;
        }
    }

    /// A copy of the settings.
    pub fn clone_configuration(&self) -> (c: Self)
        ensures
            c == *self,
    {
        Configuration {
            username: self.username.clone(),
            password: self.password.clone(),
            ssid: self.ssid.clone(),
            launch_at_login: self.launch_at_login,
        }
    }

    /// Takes the console answers for the account name and the password: a name that is not
    /// only white space replaces the account name, trimmed; a non-empty password replaces
    /// the password. Empty answers keep the current values.
    pub fn apply_console_answers(&mut self, username: &str, password: &str)
        ensures
            final(self).username@ == (if trim(username@).len() > 0 {
                trim(username@)
            } else {
                old(self).username@
            }),
            final(self).password@ == (if password@.len() > 0 {
                password@
            } else {
                old(self).password@
            }),
            final(self).ssid == old(self).ssid,
            final(self).launch_at_login == old(self).launch_at_login,
    {
        let name = trimmed(username);
        if !name.as_str().is_empty() {
            self.username = name;
        }
        if !password.is_empty() {
            self.password = password.to_owned();
        }
    }

    /// Whether an account name and a password are present.
    pub fn credentials_present(&self) -> (b: bool)
        ensures
            b == credentials_present_spec(*self),
    {
        let name = trim_chars(&chars_of(self.username.as_str()));
        name.len() > 0 && !self.password.as_str().is_empty()
    }
}

/// Normalising is idempotent: a second `normalize` changes nothing. It never leaves the
/// network name empty, and it does not change whether credentials are present.
pub proof fn lemma_normalize_idempotent(c: Configuration)
    ensures
        trim(trim(c.username@)) == trim(c.username@),
        normalized_ssid(normalized_ssid(c.ssid@)) == normalized_ssid(c.ssid@),
        normalized_ssid(c.ssid@).len() > 0,
        trim(trim(c.username@)).len() > 0 <==> trim(c.username@).len() > 0,
{
    lemma_trim_idempotent(c.username@);
    lemma_trim_idempotent(c.ssid@);
    reveal_strlit("HIT-WLAN");
    let d = default_ssid_spec();
    assert(d.len() == 8);
    lemma_trim_start_fixed(d);
    lemma_trim_end_fixed(d);
}

} // verus!
