use vstd::prelude::*;

use crate::eval::{json_to_value, json_value_view};
use crate::json::JsonValue;
use crate::option::{opt_view, OptionValue};
use crate::string_map::StringMap;
use crate::text::{owned, views};

verus! {

/// Reads an existing flake.nix and extracts the current values of known options.
///
/// Strategy: run `nix eval --json` on each option path we care about (the
/// caller runs it, with the expressions built here). This is slower than a full
/// AST walk but is robust to any valid Nix syntax.
pub struct FlakeParser {
    /// The directory that holds flake.nix.
    pub flake_path: String,
    /// Hostname to use when evaluating nixosConfigurations.<host>.
    pub hostname: Option<String>,
}

/// Why no host could be chosen.
#[derive(Debug, PartialEq, Eq)]
pub enum HostnameError {
    /// The flake lists no NixOS configuration.
    NoConfigurations,
}

impl HostnameError {
    /// The text of the error.
    pub fn message(&self) -> (r: String)
        ensures
            r@ == "no nixosConfigurations found in flake"@,
    {
        owned("no nixosConfigurations found in flake")
    }
}

/// The strings of a JSON array of strings (what deserialising it into a
/// `Vec<String>` gives); `None` for any other document.
pub open spec fn string_list(v: JsonValue) -> Option<Seq<Seq<char>>> {
    match v {
        JsonValue::Array(items) => if forall|i: int| 0 <= i < items@.len() ==> (#[trigger] items@[i]).text() is Some {
            Some(items@.map_values(|x: JsonValue| x.text().unwrap()))
        } else {
            None
        },
        _ => None,
    }
}

/// The host a flake's configuration is evaluated for: the configured one; else,
/// where `nix eval` listed the flake's configurations, the first of them (an
/// error where it listed none or printed something else); else, where it could
/// not run, a fixed fallback name.
pub open spec fn chosen_host(
    configured: Option<Seq<char>>,
    listing: Option<Option<JsonValue>>,
) -> Result<Seq<char>, HostnameError> {
    match configured {
        Some(h) => Ok(h),
        None => match listing {
            None => Ok("flaky_machine"@),
            Some(printed) => {
                let names = match printed {
                    Some(v) => match string_list(v) {
                        Some(n) => n,
                        None => Seq::empty(),
                    },
                    None => Seq::empty(),
                };
                if names.len() > 0 {
                    Ok(names[0])
                } else {
                    Err(HostnameError::NoConfigurations)
                }
            },
        },
    }
}

/// The strings of a JSON array of strings.
pub fn json_string_list(v: &JsonValue) -> (r: Option<Vec<String>>)
    ensures
        match r {
            Some(l) => string_list(*v) == Some(views(l@)),
            None => string_list(*v) is None,
        },
{
    match v {
        JsonValue::Array(items) => {
            let mut out: Vec<String> = Vec::new();
            let mut i: usize = 0;
            while i < items.len()
                invariant
                    *v is Array,
                    (*v)->Array_0 == *items,
                    i <= items@.len(),
                    forall|j: int| 0 <= j < i ==> (#[trigger] items@[j]).text() is Some,
                    views(out@) =~= items@.take(i as int).map_values(|x: JsonValue| x.text().unwrap()),
                decreases items@.len() - i,
            {
                match items[i].as_str() {
                    Some(s) => {
                        let ghost prev = out@;
                        out.push(owned(s));
                        assert(views(out@) =~= views(prev).push(s@));
                        assert(items@.take(i + 1) =~= items@.take(i as int).push(items@[i as int]));
                    },
                    None => {
                        assert(items@[i as int].text() is None);
                        return None;
                    },
                }
                i += 1;
            }
            assert(items@.take(items@.len() as int) =~= items@);
            Some(out)
        },
        _ => None,
    }
}

/// Converts what `nix eval --json` printed for an option into its value.
pub fn json_to_option_value(val: &JsonValue) -> (r: Option<OptionValue>)
    ensures
        opt_view(r) == json_value_view(*val),
{
    json_to_value(val)
}

/// Records the value that `nix eval` printed for the option `name`, where it
/// printed a JSON document that stands for a value; options it could not
/// evaluate are skipped (the TUI shows the schema default instead).
pub fn note_value(values: &mut StringMap<OptionValue>, name: &str, printed: Option<JsonValue>)
    ensures
        match printed {
            Some(v) => match json_value_view(v) {
                Some(x) => {
                    &&& forall|q: Seq<char>| q != name@ ==> #[trigger] final(values).lookup(q) == old(values).lookup(q)
                    &&& opt_view(final(values).lookup(name@)) == Some(x)
                },
                None => final(values)@ == old(values)@,
            },
            None => final(values)@ == old(values)@,
        },
{
    if let Some(val) = printed {
        if let Some(ov) = json_to_option_value(&val) {
            values.insert(owned(name), ov);
        }
    }
}

impl FlakeParser {
    pub fn new(flake_path: String) -> (r: Self)
        ensures
            r.flake_path == flake_path,
            r.hostname is None,
    {
        FlakeParser { flake_path, hostname: None }
    }

    pub fn with_hostname(self, hostname: String) -> (r: Self)
        ensures
            r.flake_path == self.flake_path,
            r.hostname == Some(hostname),
    {
        let mut s = self;
        s.hostname = Some(hostname);
        s
    }

    /// The Nix expression whose value is the option `name` of the configuration
    /// of `host` in this flake.
    pub fn option_value_expr(&self, host: &str, name: &str) -> (r: String)
        ensures
            r@ == "(builtins.getFlake \""@ + self.flake_path@ + "\").nixosConfigurations.\""@ + host@ + "\".config."@ + name@,
    {
        let mut r = owned("(builtins.getFlake \"");
        r.append(self.flake_path.as_str());
        r.append("\").nixosConfigurations.\"");
        r.append(host);
        r.append("\".config.");
        r.append(name);
        r
    }

    /// The Nix expression whose value lists the names of the flake's NixOS
    /// configurations.
    pub fn hostnames_expr(&self) -> (r: String)
        ensures
            r@ == "builtins.attrNames (builtins.getFlake \""@ + self.flake_path@ + "\").nixosConfigurations"@,
    {
        let mut r = owned("builtins.attrNames (builtins.getFlake \"");
        r.append(self.flake_path.as_str());
        r.append("\").nixosConfigurations");
        r
    }

    /// The host to evaluate the configuration of, given what listing the
    /// flake's configurations gave: `None` where `nix eval` could not run or
    /// failed, `Some(None)` where it printed something that is not JSON.
    pub fn choose_hostname(&self, listing: Option<Option<JsonValue>>) -> (r: Result<String, HostnameError>)
        ensures
            match (r, chosen_host(crate::option::opt_text(self.hostname), listing)) {
                (Ok(h), Ok(x)) => h@ == x,
                (Err(e), Err(x)) => e == x,
                _ => false,
            },
    {
        if let Some(h) = &self.hostname {
            return Ok(h.clone());
        }
        match listing {
            Some(printed) => {
                let names: Vec<String> = match printed {
                    Some(v) => match json_string_list(&v) {
                        Some(n) => n,
                        None => Vec::new(),
                    },
                    None => Vec::new(),
                };
                if names.len() > 0 {
                    Ok(names[0].clone())
                } else {
                    Err(HostnameError::NoConfigurations)
                }
            },
            None => {
                // No nix available or flake not yet initialised — use a fixed name.
                Ok(owned("flaky_machine"))
            },
        }
    }
}

/// The host chosen for a flake: a configured host always wins; else, when the
/// listing printed an array of names, the first of them, and an error when the
/// array is empty or the listing printed anything else; when the listing could
/// not run at all, the fallback name.
pub proof fn law_host_choice(configured: Option<Seq<char>>, listing: Option<Option<JsonValue>>)
    ensures
        configured matches Some(h) ==> chosen_host(configured, listing) == Ok::<Seq<char>, HostnameError>(h),
        configured is None && listing is None ==> chosen_host(configured, listing) == Ok::<Seq<char>, HostnameError>("flaky_machine"@),
        configured is None ==> match listing {
            Some(Some(JsonValue::Array(items))) =>
                (forall|i: int| 0 <= i < items@.len() ==> (#[trigger] items@[i]).text() is Some) ==> (
                    if items@.len() > 0 {
                        chosen_host(configured, listing) == Ok::<Seq<char>, HostnameError>(items@[0].text().unwrap())
                    } else {
                        chosen_host(configured, listing) == Err::<Seq<char>, HostnameError>(HostnameError::NoConfigurations)
                    }),
            Some(Some(JsonValue::Object(_))) | Some(None) =>
                chosen_host(configured, listing) == Err::<Seq<char>, HostnameError>(HostnameError::NoConfigurations),
            _ => true,
        },
{
}

} // verus!
