//! Configuration: the file format, interpolation, and the objects that the
//! files describe.

pub mod action;
pub mod dump;
pub mod files;
pub mod filter;
pub mod interpolator;
pub mod jail;
pub mod loader;
pub mod parser;

use crate::table;
use crate::text;
use crate::text::Text;
use indexmap::IndexMap;
use vstd::prelude::*;

verus! {

/// The version of the library.
pub const VERSION: &'static str = "0.1.0";

/// The name under which the library goes.
pub const NAME: &'static str = "rail2ban";

/// The built-in values that variables can refer to.
pub open spec fn builtins(hostname: Option<Text>) -> Seq<(Text, Text)> {
    table::put(
        table::put(
            table::put(Seq::empty(), "fail2ban_version"@, VERSION@),
            "rail2ban_version"@,
            VERSION@,
        ),
        "fq-hostname"@,
        match hostname {
            Some(h) => h,
            None => "localhost"@,
        },
    )
}

/// The built-in values that variables can refer to, for a machine's host name
/// where it is known.
pub fn builtin_defaults(hostname: Option<&str>) -> (r: IndexMap<String, String>)
    ensures
        table::entries(r) == builtins(text::opt_str(hostname)),
{
    let mut t = table::new_table();
    table::insert(&mut t, "fail2ban_version".to_owned(), VERSION.to_owned());
    table::insert(&mut t, "rail2ban_version".to_owned(), VERSION.to_owned());
    match hostname {
        Some(h) => {
            table::insert(&mut t, "fq-hostname".to_owned(), h.to_owned());
        },
        None => {
            table::insert(&mut t, "fq-hostname".to_owned(), "localhost".to_owned());
        },
    }
    t
}

/// What the built-in variables stand for.
pub proof fn law_builtins(h: Text)
    ensures
        table::lookup(builtins(Some(h)), "fq-hostname"@) == Some(h),
        table::lookup(builtins(None), "fq-hostname"@) == Some("localhost"@),
        table::lookup(builtins(Some(h)), "fail2ban_version"@) == Some(VERSION@),
        table::lookup(builtins(Some(h)), "rail2ban_version"@) == Some(VERSION@),
{
    reveal_strlit("fail2ban_version");
    reveal_strlit("rail2ban_version");
    reveal_strlit("fq-hostname");
    assert("fail2ban_version"@.len() == 16 && "fail2ban_version"@[0] == 'f');
    assert("rail2ban_version"@.len() == 16 && "rail2ban_version"@[0] == 'r');
    assert("fq-hostname"@.len() == 11);
    let none = Seq::<(Text, Text)>::empty();
    let one = table::put(none, "fail2ban_version"@, VERSION@);
    let two = table::put(one, "rail2ban_version"@, VERSION@);
    table::law_put_lookup(none, "fail2ban_version"@, VERSION@, "fail2ban_version"@);
    table::law_put_lookup(one, "rail2ban_version"@, VERSION@, "fail2ban_version"@);
    table::law_put_lookup(one, "rail2ban_version"@, VERSION@, "rail2ban_version"@);
    table::law_put_lookup(two, "fq-hostname"@, h, "fail2ban_version"@);
    table::law_put_lookup(two, "fq-hostname"@, h, "rail2ban_version"@);
    table::law_put_lookup(two, "fq-hostname"@, h, "fq-hostname"@);
    table::law_put_lookup(two, "fq-hostname"@, "localhost"@, "fq-hostname"@);
}

} // verus!
