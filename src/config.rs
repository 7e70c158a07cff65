//! Configuration of a semantic conventions registry and its validation.
//!
//! The configuration names the registry and its version, the contact information of its
//! owner and maintainers, and the registries it depends on.

use vstd::prelude::*;
use vstd::string::*;
use crate::text::{contains_char, has_prefix};

verus! {

/// Errors raised while loading or validating a registry configuration.
#[derive(Debug, PartialEq)]
pub enum Error {
    /// The registry configuration file was not found.
    RegistryConfigNotFound {
        /// The path of the missing file.
        path: String,
    },
    /// The registry configuration is invalid.
    InvalidRegistryConfig {
        /// The path of the configuration file.
        path: String,
        /// What is wrong with it.
        error: String,
    },
    /// Several errors at once.
    CompoundError(Vec<Error>),
}

/// Represents the configuration of a semantic conventions registry.
#[derive(Debug, Clone)]
pub struct RegistryConfig {
    /// The name of the registry. This name is used to define the package name.
    pub name: String,
    /// An optional description of the registry, in markdown.
    pub description: Option<String>,
    /// The version of the registry which will be used to define the package version.
    pub version: String,
    /// The contact information of the registry owner.
    pub owner: RegistryContact,
    /// The contact information of the registry maintainers.
    pub maintainers: Vec<RegistryContact>,
    /// The dependencies required by this registry.
    pub dependencies: Vec<RegistryDependency>,
}

/// Contact information for an individual or organization.
#[derive(Debug, Clone)]
pub struct RegistryContact {
    /// The name of the individual or organization (required).
    pub name: String,
    /// The email address of the individual or organization.
    pub email: Option<String>,
    /// The URL of the individual or organization.
    pub url: Option<String>,
}

/// Represents a dependency of the registry.
#[derive(Debug, Clone)]
pub struct RegistryDependency {
    /// The name of the dependency.
    pub name: String,
    /// The version of the dependency.
    pub version: String,
    /// The URL of the dependency's repository.
    pub repository: String,
    /// An optional alias for the dependency.
    pub alias: Option<String>,
}

/// Whether `s` starts with `http://` or `https://`.
pub open spec fn is_web_url(s: Seq<char>) -> bool {
    s.len() >= "http://"@.len() && s.subrange(0, "http://"@.len() as int) == "http://"@
    || s.len() >= "https://"@.len() && s.subrange(0, "https://"@.len() as int) == "https://"@
}

/// `msg` if `cond` holds, else nothing.
pub open spec fn when(cond: bool, msg: Seq<char>) -> Seq<Seq<char>> {
    if cond {
        seq![msg]
    } else {
        Seq::empty()
    }
}

/// The problems of a contact of kind `ct` (such as `owner`), in reporting order.
pub open spec fn contact_issues(c: RegistryContact, ct: Seq<char>) -> Seq<Seq<char>> {
    when(c.name@.len() == 0, "The "@ + ct + " name is required."@)
    + match c.email {
        Some(e) => when(
            !e@.contains('@'),
            "The "@ + ct + " email is not a valid email address (invalid email: "@ + e@ + ")."@,
        ),
        None => Seq::empty(),
    }
    + match c.url {
        Some(u) => when(
            !is_web_url(u@),
            "The "@ + ct + " URL is not a valid URL (invalid url: "@ + u@ + ")."@,
        ),
        None => Seq::empty(),
    }
}

/// The problems of a dependency declaration, in reporting order.
pub open spec fn dependency_issues(d: RegistryDependency) -> Seq<Seq<char>> {
    when(d.name@.len() == 0, "The dependency name is required."@)
    + when(d.version@.len() == 0, "The dependency version is required."@)
    + when(d.repository@.len() == 0, "The dependency repository URL is required."@)
    + when(!is_web_url(d.repository@), "The dependency repository URL is not a valid URL."@)
    + match d.alias {
        Some(a) => when(a@.contains(':'), "The dependency alias cannot contain a colon (':')."@),
        None => Seq::empty(),
    }
}

pub open spec fn maintainers_issues(s: Seq<RegistryContact>) -> Seq<Seq<char>>
    decreases s.len(),
{
    if s.len() == 0 {
        Seq::empty()
    } else {
        maintainers_issues(s.drop_last()) + contact_issues(s.last(), "maintainer"@)
    }
}

pub open spec fn dependencies_issues(s: Seq<RegistryDependency>) -> Seq<Seq<char>>
    decreases s.len(),
{
    if s.len() == 0 {
        Seq::empty()
    } else {
        dependencies_issues(s.drop_last()) + dependency_issues(s.last())
    }
}

/// All problems of a registry configuration, in reporting order.
pub open spec fn config_issues(c: RegistryConfig) -> Seq<Seq<char>> {
    when(c.name@.len() == 0, "The registry name is required."@)
    + when(c.version@.len() == 0, "The registry version is required."@)
    + contact_issues(c.owner, "owner"@)
    + maintainers_issues(c.maintainers@)
    + dependencies_issues(c.dependencies@)
}

/// `e` is an invalid-configuration error for `path` with message `msg`.
pub open spec fn is_invalid_config(e: Error, path: Seq<char>, msg: Seq<char>) -> bool {
    match e {
        Error::InvalidRegistryConfig { path: p, error: m } => p@ == path && m@ == msg,
        _ => false,
    }
}

/// `errs` holds one invalid-configuration error for `path` per message of `msgs`, in order.
pub open spec fn reports(errs: Seq<Error>, path: Seq<char>, msgs: Seq<Seq<char>>) -> bool {
    errs.len() == msgs.len()
    && forall|i: int| 0 <= i < msgs.len() ==> #[trigger] is_invalid_config(errs[i], path, msgs[i])
}

/// `new` is `old` followed by one invalid-configuration error per message of `msgs`.
pub open spec fn appended(old: Seq<Error>, new: Seq<Error>, path: Seq<char>, msgs: Seq<Seq<char>>) -> bool {
    new.len() == old.len() + msgs.len()
    && new.subrange(0, old.len() as int) == old
    && reports(new.subrange(old.len() as int, new.len() as int), path, msgs)
}

proof fn lemma_appended_trans(
    a: Seq<Error>,
    b: Seq<Error>,
    c: Seq<Error>,
    path: Seq<char>,
    m1: Seq<Seq<char>>,
    m2: Seq<Seq<char>>,
)
    requires
        appended(a, b, path, m1),
        appended(b, c, path, m2),
    ensures
        appended(a, c, path, m1 + m2),
{
    assert(c.subrange(0, a.len() as int) =~= b.subrange(0, a.len() as int));
    let tail = c.subrange(a.len() as int, c.len() as int);
    assert forall|i: int| 0 <= i < (m1 + m2).len() implies #[trigger] is_invalid_config(
        tail[i],
        path,
        (m1 + m2)[i],
    ) by {
        if i < m1.len() {
            assert(tail[i] == b.subrange(a.len() as int, b.len() as int)[i]);
        } else {
            assert(tail[i] == c.subrange(b.len() as int, c.len() as int)[i - m1.len()]);
        }
    }
}

fn push_issue(errors: &mut Vec<Error>, path: &String, cond: bool, msg: String)
    ensures
        appended(old(errors)@, final(errors)@, path@, when(cond, msg@)),
{
    let ghost start = errors@;
    if cond {
        errors.push(Error::InvalidRegistryConfig { path: path.clone(), error: msg });
        assert(errors@.subrange(0, start.len() as int) =~= start);
        assert(is_invalid_config(errors@.subrange(start.len() as int, errors@.len() as int)[0], path@, msg@));
    } else {
        assert(errors@.subrange(0, start.len() as int) =~= start);
    }
}

fn url_ok(s: &String) -> (r: bool)
    ensures
        r == is_web_url(s@),
{
    has_prefix(s.as_str(), "http://") || has_prefix(s.as_str(), "https://")
}

/// Collects the errors of a registry configuration into one result: nothing when there
/// are none, the error itself when there is one, a compound error otherwise.
pub fn handle_errors(errors: Vec<Error>) -> (r: Result<(), Error>)
    ensures
        errors@.len() == 0 ==> r is Ok,
        errors@.len() == 1 ==> r == Err::<(), Error>(errors@[0]),
        errors@.len() > 1 ==> r == Err::<(), Error>(Error::CompoundError(errors)),
{
    let mut errors = errors;
    if errors.len() == 0 {
        Ok(())
    } else if errors.len() == 1 {
        match errors.pop() {
            Some(e) => Err(e),
            None => Ok(()),
        }
    } else {
        Err(Error::CompoundError(errors))
    }
}

impl RegistryConfig {
    /// Validates the configuration read from `path`.
    ///
    /// Every problem found is reported, in order: registry name and version, owner,
    /// maintainers, dependencies.
    pub fn validate(&self, path: &String) -> (r: Result<(), Error>)
        ensures
            config_issues(*self).len() == 0 <==> r is Ok,
            config_issues(*self).len() == 1 ==> (r matches Err(e) && is_invalid_config(
                e,
                path@,
                config_issues(*self)[0],
            )),
            config_issues(*self).len() > 1 ==> (r matches Err(Error::CompoundError(v)) && reports(
                v@,
                path@,
                config_issues(*self),
            )),
    {
        let mut errors: Vec<Error> = Vec::new();
        let ghost e0 = errors@;
        let ghost i1 = when(self.name@.len() == 0, "The registry name is required."@);
        let ghost i2 = when(self.version@.len() == 0, "The registry version is required."@);
        let ghost i3 = contact_issues(self.owner, "owner"@);
        let ghost ms = self.maintainers@;
        let ghost ds = self.dependencies@;
        push_issue(
            &mut errors,
            path,
            self.name.as_str().is_empty(),
            String::from_str("The registry name is required."),
        );
        let ghost e1 = errors@;
        push_issue(
            &mut errors,
            path,
            self.version.as_str().is_empty(),
            String::from_str("The registry version is required."),
        );
        let ghost e2 = errors@;
        let _ = self.owner.validate(path, "owner", &mut errors);
        proof {
            lemma_appended_trans(e0, e1, e2, path@, i1, i2);
            lemma_appended_trans(e0, e2, errors@, path@, i1 + i2, i3);
            assert(ms.take(0) =~= Seq::<RegistryContact>::empty());
            assert(i1 + i2 + i3 + maintainers_issues(ms.take(0)) =~= i1 + i2 + i3);
        }
        let mut i: usize = 0;
        while i < self.maintainers.len()
            invariant
                e0.len() == 0,
                ms == self.maintainers@,
                ds == self.dependencies@,
                i <= ms.len(),
                config_issues(*self) == i1 + i2 + i3 + maintainers_issues(ms) + dependencies_issues(ds),
                appended(e0, errors@, path@, i1 + i2 + i3 + maintainers_issues(ms.take(i as int))),
            decreases ms.len() - i,
        {
            let ghost before = errors@;
            proof {
                assert(ms.take(i + 1).drop_last() =~= ms.take(i as int));
                assert(ms.take(i + 1).last() == ms[i as int]);
                assert(maintainers_issues(ms.take(i + 1)) == maintainers_issues(ms.take(i as int))
                    + contact_issues(ms[i as int], "maintainer"@));
            }
            let _ = self.maintainers[i].validate(path, "maintainer", &mut errors);
            proof {
                lemma_appended_trans(
                    e0,
                    before,
                    errors@,
                    path@,
                    i1 + i2 + i3 + maintainers_issues(ms.take(i as int)),
                    contact_issues(ms[i as int], "maintainer"@),
                );
                assert(i1 + i2 + i3 + maintainers_issues(ms.take(i as int)) + contact_issues(
                    ms[i as int],
                    "maintainer"@,
                ) =~= i1 + i2 + i3 + maintainers_issues(ms.take(i + 1)));
            }
            i = i + 1;
        }
        let ghost pre = i1 + i2 + i3 + maintainers_issues(ms);
        proof {
            assert(ms.take(ms.len() as int) =~= ms);
            assert(ds.take(0) =~= Seq::<RegistryDependency>::empty());
            assert(pre + dependencies_issues(ds.take(0)) =~= pre);
        }
        let mut j: usize = 0;
        while j < self.dependencies.len()
            invariant
                e0.len() == 0,
                ds == self.dependencies@,
                j <= ds.len(),
                config_issues(*self) == pre + dependencies_issues(ds),
                appended(e0, errors@, path@, pre + dependencies_issues(ds.take(j as int))),
            decreases ds.len() - j,
        {
            let ghost before = errors@;
            proof {
                assert(ds.take(j + 1).drop_last() =~= ds.take(j as int));
                assert(ds.take(j + 1).last() == ds[j as int]);
                assert(dependencies_issues(ds.take(j + 1)) == dependencies_issues(ds.take(j as int))
                    + dependency_issues(ds[j as int]));
            }
            let _ = self.dependencies[j].validate(path, &mut errors);
            proof {
                lemma_appended_trans(
                    e0,
                    before,
                    errors@,
                    path@,
                    pre + dependencies_issues(ds.take(j as int)),
                    dependency_issues(ds[j as int]),
                );
                assert(pre + dependencies_issues(ds.take(j as int)) + dependency_issues(ds[j as int])
                    =~= pre + dependencies_issues(ds.take(j + 1)));
            }
            j = j + 1;
        }
        proof {
            assert(ds.take(ds.len() as int) =~= ds);
            assert(errors@.subrange(0, 0) =~= e0);
            assert(errors@.subrange(0, errors@.len() as int) =~= errors@);
        }
        handle_errors(errors)
    }
}

impl RegistryContact {
    /// Appends to `errors` one error per problem of this contact, of kind `contact_type`.
    pub fn validate(&self, path: &String, contact_type: &str, errors: &mut Vec<Error>) -> (r: Result<(), Error>)
        ensures
            r is Ok,
            appended(old(errors)@, final(errors)@, path@, contact_issues(*self, contact_type@)),
    {
        let ghost e0 = errors@;
        let ct = contact_type;
        let m1 = String::from_str("The ").concat(ct).concat(" name is required.");
        push_issue(errors, path, self.name.as_str().is_empty() , m1);
        let ghost e1 = errors@;
        let ghost i1 = when(self.name@.len() == 0, "The "@ + ct@ + " name is required."@);
        let ghost i2: Seq<Seq<char>> = Seq::empty();
        match &self.email {
            Some(email) => {
                let m = String::from_str("The ").concat(ct).concat(
                    " email is not a valid email address (invalid email: ",
                ).concat(email.as_str()).concat(").");
                push_issue(errors, path, !contains_char(email.as_str(), '@'), m);
                proof {
                    i2 = when(!email@.contains('@'), "The "@ + ct@ + " email is not a valid email address (invalid email: "@ + email@ + ")."@);
                }
            },
            None => {
                push_issue(errors, path, false, String::new());
            },
        }
        let ghost e2 = errors@;
        proof {
            lemma_appended_trans(e0, e1, e2, path@, i1, i2);
        }
        let ghost i3: Seq<Seq<char>> = Seq::empty();
        match &self.url {
            Some(url) => {
                let m = String::from_str("The ").concat(ct).concat(
                    " URL is not a valid URL (invalid url: ",
                ).concat(url.as_str()).concat(").");
                push_issue(errors, path, !url_ok(url), m);
                proof {
                    i3 = when(!is_web_url(url@), "The "@ + ct@ + " URL is not a valid URL (invalid url: "@ + url@ + ")."@);
                }
            },
            None => {
                push_issue(errors, path, false, String::new());
            },
        }
        proof {
            lemma_appended_trans(e0, e2, errors@, path@, i1 + i2, i3);
            assert(i1 + i2 + i3 == contact_issues(*self, contact_type@));
        }
        Ok(())
    }
}

impl RegistryDependency {
    /// Appends to `errors` one error per problem of this dependency declaration.
    pub fn validate(&self, path: &String, errors: &mut Vec<Error>) -> (r: Result<(), Error>)
        ensures
            r is Ok,
            appended(old(errors)@, final(errors)@, path@, dependency_issues(*self)),
    {
        let ghost e0 = errors@;
        push_issue(errors, path, self.name.as_str().is_empty() , String::from_str("The dependency name is required."));
        let ghost e1 = errors@;
        push_issue(errors, path, self.version.as_str().is_empty() , String::from_str("The dependency version is required."));
        let ghost e2 = errors@;
        push_issue(errors, path, self.repository.as_str().is_empty() , String::from_str("The dependency repository URL is required."));
        let ghost e3 = errors@;
        push_issue(errors, path, !url_ok(&self.repository), String::from_str("The dependency repository URL is not a valid URL."));
        let ghost e4 = errors@;
        let ghost i5: Seq<Seq<char>> = Seq::empty();
        match &self.alias {
            Some(alias) => {
                push_issue(errors, path, contains_char(alias.as_str(), ':'), String::from_str("The dependency alias cannot contain a colon (':')."));
                proof {
                    i5 = when(alias@.contains(':'), "The dependency alias cannot contain a colon (':')."@);
                }
            },
            None => {
                push_issue(errors, path, false, String::new());
            },
        }
        let ghost i1 = when(self.name@.len() == 0, "The dependency name is required."@);
        let ghost i2 = when(self.version@.len() == 0, "The dependency version is required."@);
        let ghost i3 = when(self.repository@.len() == 0, "The dependency repository URL is required."@);
        let ghost i4 = when(!is_web_url(self.repository@), "The dependency repository URL is not a valid URL."@);
        proof {
            lemma_appended_trans(e0, e1, e2, path@, i1, i2);
            lemma_appended_trans(e0, e2, e3, path@, i1 + i2, i3);
            lemma_appended_trans(e0, e3, e4, path@, i1 + i2 + i3, i4);
            lemma_appended_trans(e0, e4, errors@, path@, i1 + i2 + i3 + i4, i5);
        }
        Ok(())
    }
}

} // verus!
