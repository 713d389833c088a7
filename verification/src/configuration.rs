//! The server's configuration values and the per-site configuration blocks.
use vstd::prelude::*;

use crate::str_dict::{assoc_contains, assoc_get, assoc_get_or_empty, StrDict};
use crate::text::{parse_u32, spec_parse_u32, str_eq};

verus! {

/// One configured site: its name, its type, the definition string that maps
/// it to a host or directory, and its parameters.
pub struct SiteConfig {
    pub name: String,
    pub ctype: String,
    pub definition: String,
    pub params: StrDict,
}

/// A parameter value read as a boolean: the known words, then `0` or `1`.
pub open spec fn spec_bool_from_string(s: Seq<char>) -> Option<bool> {
    if s == "true"@ || s == "yes"@ {
        Some(true)
    } else if s == "false"@ || s == "no"@ {
        Some(false)
    } else {
        match spec_parse_u32(s) {
            Some(v) => if v == 0 {
                Some(false)
            } else if v == 1 {
                Some(true)
            } else {
                None
            },
            None => None,
        }
    }
}

impl Default for SiteConfig {
    fn default() -> (r: SiteConfig)
        ensures
            r.name@.len() == 0,
            r.ctype@.len() == 0,
            r.definition@.len() == 0,
            r.params@ =~= Seq::<(Seq<char>, Seq<char>)>::empty(),
            r.wf(),
    {
        SiteConfig {
            name: String::new(),
            ctype: String::new(),
            definition: String::new(),
            params: StrDict::new(),
        }
    }
}

impl SiteConfig {
    pub open spec fn wf(&self) -> bool {
        self.params.wf()
    }

    pub fn has_param(&self, param: &str) -> (r: bool)
        requires
            self.wf(),
        ensures
            r == assoc_contains(self.params@, param@),
    {
        self.params.contains_key(param)
    }

    /// The parameter's value, or an empty string when it is not set.
    pub fn get_param(&self, param: &str) -> (r: String)
        requires
            self.wf(),
        ensures
            r@ == assoc_get_or_empty(self.params@, param@),
    {
        match self.params.get(param) {
            Some(v) => v.clone(),
            None => String::new(),
        }
    }

    /// The parameter read as a boolean: `1`, `true` and `yes` count as true,
    /// anything else as false; an absent parameter yields the default.
    pub fn get_param_as_bool(&self, param: &str, default: bool) -> (r: bool)
        requires
            self.wf(),
        ensures
            r == match assoc_get(self.params@, param@) {
                Some(v) => v == "1"@ || v == "true"@ || v == "yes"@,
                None => default,
            },
    {
        match self.params.get(param) {
            None => default,
            Some(val) => str_eq(val.as_str(), "1") || str_eq(val.as_str(), "true") || str_eq(
                val.as_str(),
                "yes",
            ),
        }
    }

    /// The parameter read as a number; an absent or unreadable value yields
    /// the default.
    pub fn get_param_as_uint(&self, param: &str, default: u32) -> (r: u32)
        requires
            self.wf(),
        ensures
            r == match assoc_get(self.params@, param@) {
                Some(v) => match spec_parse_u32(v) {
                    Some(x) => x,
                    None => default,
                },
                None => default,
            },
    {
        match self.params.get(param) {
            None => default,
            Some(val) => match parse_u32(val.as_str()) {
                Some(x) => x,
                None => default,
            },
        }
    }
}

/// The server's own settings, with one `SiteConfig` per configured site.
pub struct Configuration {
    pub worker_threads: u32,
    pub enable_http: bool,
    pub port_number_http: u32,
    pub downgrade_user_after_bind: bool,
    pub downgrade_username: String,
    pub keep_alive_enabled: bool,
    pub keep_alive_timeout: u32,
    pub keep_alive_limit: u32,
    pub site_configs: Vec<SiteConfig>,
}

impl Configuration {
    pub open spec fn wf(&self) -> bool {
        forall|i: int| 0 <= i < self.site_configs@.len() ==> (#[trigger] self.site_configs@[i]).wf()
    }

    pub fn new() -> (r: Configuration)
        ensures
            r.worker_threads == 8u32,
            r.enable_http,
            r.port_number_http == 9393u32,
            !r.downgrade_user_after_bind,
            r.downgrade_username@.len() == 0,
            !r.keep_alive_enabled,
            r.keep_alive_timeout == 6u32,
            r.keep_alive_limit == 20u32,
            r.site_configs@.len() == 0,
            r.wf(),
    {
        Configuration {
            worker_threads: 8,
            enable_http: true,
            port_number_http: 9393,
            downgrade_user_after_bind: false,
            downgrade_username: String::new(),
            keep_alive_enabled: false,
            keep_alive_timeout: 6,
            keep_alive_limit: 20,
            site_configs: Vec::new(),
        }
    }

    /// Split a `key: value` line, trimming both sides; a line without a
    /// colon leaves the outputs alone and yields false.
    pub fn get_key_value(string_val: &str, key: &mut String, value: &mut String) -> (r: bool)
        ensures
            r == crate::text::contains_char(string_val@, ':'),
            r ==> match crate::text::spec_split_once(string_val@, ':') {
                Some(kv) => final(key)@ == crate::text::spec_trim(kv.0) && final(value)@
                    == crate::text::spec_trim(kv.1),
                None => false,
            },
            !r ==> final(key)@ == old(key)@ && final(value)@ == old(value)@,
    {
        proof {
            crate::text::lemma_first_index_of_contains(string_val@, ':');
        }
        match crate::text::split_once_char(string_val, ':') {
            Some(kv) => {
                let k = crate::text::trim_str(kv.0.as_str());
                let v = crate::text::trim_str(kv.1.as_str());
                *key = k;
                *value = v;
                true
            },
            None => false,
        }
    }

    /// Read a boolean out of a configuration value; an unreadable value
    /// leaves the output alone and yields false.
    pub fn get_bool_value_from_string(string_val: &str, bool_val: &mut bool) -> (r: bool)
        ensures
            match spec_bool_from_string(string_val@) {
                Some(b) => r && *final(bool_val) == b,
                None => !r && *final(bool_val) == *old(bool_val),
            },
    {
        proof {
            reveal_strlit("true");
            reveal_strlit("yes");
            reveal_strlit("false");
            reveal_strlit("no");
        }
        if string_val.unicode_len() == 0 {
            return false;
        }
        if str_eq(string_val, "true") || str_eq(string_val, "yes") {
            *bool_val = true;
            return true;
        }
        if str_eq(string_val, "false") || str_eq(string_val, "no") {
            *bool_val = false;
            return true;
        }
        match parse_u32(string_val) {
            Some(v) => {
                if v == 0 {
                    *bool_val = false;
                    true
                } else if v == 1 {
                    *bool_val = true;
                    true
                } else {
                    false
                }
            },
            None => false,
        }
    }

    /// When the key names match, apply the value as a boolean to the field
    /// and report the match, whether or not the value was readable.
    pub fn try_extract_bool_value(
        try_key_name: &str,
        actual_key_name: &str,
        key_value: &str,
        config_field: &mut bool,
    ) -> (r: bool)
        ensures
            r == (try_key_name@ == actual_key_name@),
            !r ==> *final(config_field) == *old(config_field),
            r ==> *final(config_field) == match spec_bool_from_string(key_value@) {
                Some(b) => b,
                None => *old(config_field),
            },
    {
        if !str_eq(try_key_name, actual_key_name) {
            return false;
        }
        let mut extracted_bool_value = false;
        if Configuration::get_bool_value_from_string(key_value, &mut extracted_bool_value) {
            *config_field = extracted_bool_value;
        }
        true
    }
}

} // verus!
