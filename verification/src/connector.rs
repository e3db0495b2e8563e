//! Connectors: which driver serves one, and with which options.
use crate::error::VfsError;
use crate::ledger::Ledger;
use crate::text::text_eq;
use vstd::prelude::*;

verus! {

/// Who serves a connector.
#[derive(Debug, Clone, Copy, PartialEq, Eq, Structural)]
pub enum DriverKind {
    AndroidSaf,
    IosScopedFs,
    /// A storage service that is found by its name.
    Service,
}

/// The system that the program runs on.
#[derive(Debug, Clone, Copy, PartialEq, Eq, Structural)]
pub enum Platform {
    Android,
    Ios,
    Other,
}

pub open spec fn kind_of(driver: Seq<char>) -> DriverKind {
    if driver == "android_saf"@ {
        DriverKind::AndroidSaf
    } else if driver == "ios_scoped_fs"@ {
        DriverKind::IosScopedFs
    } else {
        DriverKind::Service
    }
}

/// Who serves a connector with this driver; a driver of one system is refused on the
/// others.
pub fn select_driver(driver: &str, platform: Platform) -> (res: Result<DriverKind, VfsError>)
    ensures
        match res {
            Ok(kind) => kind == kind_of(driver@) && (kind == DriverKind::AndroidSaf ==> platform
                == Platform::Android) && (kind == DriverKind::IosScopedFs ==> platform
                == Platform::Ios),
            Err(e) => match kind_of(driver@) {
                DriverKind::AndroidSaf => platform != Platform::Android && e.is_internal(
                    "android_saf connector is supported only on Android"@,
                ),
                DriverKind::IosScopedFs => platform != Platform::Ios && e.is_internal(
                    "ios_scoped_fs connector is supported only on iOS"@,
                ),
                DriverKind::Service => false,
            },
        },
{
    if text_eq(driver, "android_saf") {
        if platform != Platform::Android {
            return Err(VfsError::internal("android_saf connector is supported only on Android"));
        }
        return Ok(DriverKind::AndroidSaf);
    }
    if text_eq(driver, "ios_scoped_fs") {
        if platform != Platform::Ios {
            return Err(VfsError::internal("ios_scoped_fs connector is supported only on iOS"));
        }
        return Ok(DriverKind::IosScopedFs);
    }
    Ok(DriverKind::Service)
}

/// The first `n` options by name; of two of one name the later stands.
pub open spec fn given(options: Seq<(String, String)>, n: int) -> Map<Seq<char>, String>
    decreases n,
{
    if n <= 0 {
        Map::empty()
    } else {
        given(options, n - 1).insert(options[n - 1].0@, options[n - 1].1)
    }
}

/// `new` gets the value of `legacy` where it has none itself.
pub open spec fn filled(
    m: Map<Seq<char>, String>,
    new: Seq<char>,
    legacy: Seq<char>,
) -> Map<Seq<char>, String> {
    if !m.contains_key(new) && m.contains_key(legacy) {
        m.insert(new, m[legacy])
    } else {
        m
    }
}

/// The options that the driver gets. For `s3` the older names of the keys are
/// accepted, and give way to the newer ones.
pub open spec fn adapted(
    driver: Seq<char>,
    options: Seq<(String, String)>,
    root: Option<String>,
) -> Map<Seq<char>, String> {
    let base = given(options, options.len() as int);
    let keyed = if driver == "s3"@ {
        filled(
            filled(base, "access_key_id"@, "access_key"@),
            "secret_access_key"@,
            "secret_key"@,
        ).remove("access_key"@).remove("secret_key"@)
    } else {
        base
    };
    match root {
        Some(r) => keyed.insert("root"@, r),
        None => keyed,
    }
}

fn fill(m: &mut Ledger<String>, new: &str, legacy: &str)
    requires
        old(m).wf(),
    ensures
        final(m).wf(),
        final(m)@ == filled(old(m)@, new@, legacy@),
{
    if m.contains(new) {
        return;
    }
    let value: Option<String> = match m.get(legacy) {
        Some(v) => Some(v.clone()),
        None => None,
    };
    match value {
        Some(v) => m.insert(new, v),
        None => {},
    }
}

/// The options that the driver gets.
pub fn adapt_options(driver: &str, options: &Vec<(String, String)>, root: Option<String>) -> (res:
    Ledger<String>)
    ensures
        res.wf(),
        res@ == adapted(driver@, options@, root),
{
    let mut m: Ledger<String> = Ledger::new();
    let mut i: usize = 0;
    while i < options.len()
        invariant
            i <= options@.len(),
            m.wf(),
            m@ == given(options@, i as int),
        decreases options@.len() - i,
    {
        m.insert(options[i].0.as_str(), options[i].1.clone());
        i += 1;
    }
    if text_eq(driver, "s3") {
        fill(&mut m, "access_key_id", "access_key");
        fill(&mut m, "secret_access_key", "secret_key");
        let _ = m.remove("access_key");
        let _ = m.remove("secret_key");
    }
    match root {
        Some(r) => m.insert("root", r),
        None => {},
    }
    m
}

/// Under the `s3` driver no older name is left, a newer name keeps what it was given,
/// and takes over what only the older one was given.
pub proof fn newer_key_names_win(options: Seq<(String, String)>, root: Option<String>)
    ensures
        ({
            let base = given(options, options.len() as int);
            let out = adapted("s3"@, options, root);
            &&& !out.contains_key("access_key"@)
            &&& !out.contains_key("secret_key"@)
            &&& base.contains_key("access_key_id"@) ==> out.contains_key("access_key_id"@)
                && out["access_key_id"@] == base["access_key_id"@]
            &&& base.contains_key("secret_access_key"@) ==> out.contains_key("secret_access_key"@)
                && out["secret_access_key"@] == base["secret_access_key"@]
            &&& !base.contains_key("access_key_id"@) && base.contains_key("access_key"@)
                ==> out.contains_key("access_key_id"@) && out["access_key_id"@]
                == base["access_key"@]
            &&& !base.contains_key("secret_access_key"@) && base.contains_key("secret_key"@)
                ==> out.contains_key("secret_access_key"@) && out["secret_access_key"@]
                == base["secret_key"@]
        }),
{
    reveal_strlit("root");
    reveal_strlit("access_key");
    reveal_strlit("secret_key");
    reveal_strlit("access_key_id");
    reveal_strlit("secret_access_key");
    assert("access_key"@.len() == 10);
    assert("secret_key"@.len() == 10);
    assert("access_key"@[0] == 'a');
    assert("secret_key"@[0] == 's');
    assert("access_key_id"@.len() == 13);
    assert("secret_access_key"@.len() == 17);
    assert("root"@.len() == 4);
}

/// Only the two drivers that belong to one system are served by it.
pub proof fn drivers_are_known_by_their_names(driver: Seq<char>)
    ensures
        kind_of(driver) == DriverKind::AndroidSaf <==> driver == "android_saf"@,
        kind_of(driver) == DriverKind::IosScopedFs <==> driver == "ios_scoped_fs"@,
{
    reveal_strlit("android_saf");
    reveal_strlit("ios_scoped_fs");
    assert("android_saf"@.len() != "ios_scoped_fs"@.len());
}

/// Of two options of one name the later one stands, and an option does not touch those
/// of other names.
pub proof fn later_options_stand(
    options: Seq<(String, String)>,
    option: (String, String),
    name: Seq<char>,
)
    ensures
        ({
            let before = given(options, options.len() as int);
            let after = given(options.push(option), options.len() as int + 1);
            &&& after.contains_key(option.0@) && after[option.0@] == option.1
            &&& name != option.0@ ==> after.contains_key(name) == before.contains_key(name)
            &&& name != option.0@ && before.contains_key(name) ==> after[name] == before[name]
        }),
{
    given_by_the_first(options, options.push(option), options.len() as int);
}

proof fn given_by_the_first(a: Seq<(String, String)>, b: Seq<(String, String)>, n: int)
    requires
        n <= a.len(),
        n <= b.len(),
        forall|i: int| 0 <= i < n ==> a[i] == b[i],
    ensures
        given(a, n) == given(b, n),
    decreases n,
{
    if n > 0 {
        given_by_the_first(a, b, n - 1);
    }
}

/// The driver gets the options as they were given, but for the names of keys under
/// `s3`, and with the root that is set apart.
pub proof fn other_options_are_handed_on(
    driver: Seq<char>,
    options: Seq<(String, String)>,
    root: Option<String>,
    name: Seq<char>,
)
    requires
        name != "root"@,
        driver == "s3"@ ==> name != "access_key_id"@ && name != "access_key"@ && name
            != "secret_access_key"@ && name != "secret_key"@,
    ensures
        ({
            let base = given(options, options.len() as int);
            let out = adapted(driver, options, root);
            &&& out.contains_key(name) == base.contains_key(name)
            &&& base.contains_key(name) ==> out[name] == base[name]
            &&& root is Some ==> out.contains_key("root"@) && out["root"@] == root->0
        }),
{
}

} // verus!
