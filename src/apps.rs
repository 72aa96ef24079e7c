use vstd::prelude::*;
use crate::text::{
    lex_lt, lemma_lex_irreflexive, lemma_lex_transitive, lemma_lex_total, chars_of, chars_less,
    chars_equal, texts,
};
use crate::desktop::{LinuxProvider, parsed_entries, entry_ok, lemma_parsed_entries_ok};

verus! {

/// One launchable application.
#[derive(Debug, Clone, PartialEq, Eq)]
pub struct App {
    pub name: String,
    pub exec_path: String,
    pub icon_name: Option<String>,
}

/// An application as plain text values.
pub struct AppView {
    pub name: Seq<char>,
    pub exec_path: Seq<char>,
    pub icon_name: Option<Seq<char>>,
}

pub open spec fn opt_text(o: Option<String>) -> Option<Seq<char>> {
    match o {
        Some(s) => Some(s@),
        None => None,
    }
}

impl View for App {
    type V = AppView;

    open spec fn view(&self) -> AppView {
        AppView { name: self.name@, exec_path: self.exec_path@, icon_name: opt_text(self.icon_name) }
    }
}

pub open spec fn app_views(apps: Seq<App>) -> Seq<AppView> {
    apps.map_values(|a: App| a@)
}

/// A source of installed applications. Whatever it was handed, the catalog
/// it returns is sorted by name and keeps the earliest entry of each name.
pub trait AppProvider {
    /// What the surrounding program hands over for each application found.
    type Found;

    /// The entries that what was found describes, in the order found.
    spec fn entries(found: Seq<Self::Found>) -> Seq<AppView>;

    fn get_apps(&self, found: Vec<Self::Found>) -> (r: Vec<App>)
        ensures
            is_index_of(app_views(r@), Self::entries(found@)),
    ;
}

/// Builds the catalog from applications that a platform facility listed
/// directly.
pub struct WindowsProvider;

impl AppProvider for WindowsProvider {
    type Found = App;

    open spec fn entries(found: Seq<App>) -> Seq<AppView> {
        app_views(found)
    }

    fn get_apps(&self, found: Vec<App>) -> (r: Vec<App>) {
        build_index(found)
    }
}

/// The catalog of the applications that the given desktop-entry texts
/// describe.
pub fn get_all_apps(sources: Vec<String>) -> (r: Vec<App>)
    ensures
        is_index_of(app_views(r@), parsed_entries(texts(sources@))),
        forall|j: int| 0 <= j < r@.len() ==> entry_ok(#[trigger] r@[j]@),
{
    let ghost entries = parsed_entries(texts(sources@));
    let r = LinuxProvider.get_apps(sources);
    proof {
        lemma_parsed_entries_ok(texts(sources@));
        assert forall|j: int| 0 <= j < r@.len() implies entry_ok(#[trigger] r@[j]@) by {
            assert(app_views(r@)[j] == r@[j]@);
            assert(is_first_entry(entries, app_views(r@)[j]));
            let i = choose|i: int| first_with_name(entries, i) && entries[i] == app_views(r@)[j];
            assert(entry_ok(entries[i]));
        }
    }
    r
}

/// Names strictly increase along the sequence, so no name occurs twice.
pub open spec fn sorted_by_name(r: Seq<AppView>) -> bool {
    forall|i: int, j: int|
        0 <= i < j < r.len() ==> lex_lt(#[trigger] r[i].name, #[trigger] r[j].name)
}

/// Entry `i` of `s` is the earliest one with its name.
pub open spec fn first_with_name(s: Seq<AppView>, i: int) -> bool {
    0 <= i < s.len() && forall|k: int| 0 <= k < i ==> #[trigger] s[k].name != s[i].name
}

/// `r` is the catalog of `s`: sorted by name, one entry per name, and that
/// entry is the earliest of `s` with the name.
pub open spec fn is_index_of(r: Seq<AppView>, s: Seq<AppView>) -> bool {
    &&& sorted_by_name(r)
    &&& forall|j: int| 0 <= j < r.len() ==> is_first_entry(s, #[trigger] r[j])
    &&& forall|i: int| 0 <= i < s.len() ==> has_name(r, #[trigger] s[i].name)
}

/// `e` is the earliest entry of `s` with its name.
pub open spec fn is_first_entry(s: Seq<AppView>, e: AppView) -> bool {
    exists|i: int| first_with_name(s, i) && s[i] == e
}

/// Some entry of `r` has the name `n`.
pub open spec fn has_name(r: Seq<AppView>, n: Seq<char>) -> bool {
    exists|j: int| 0 <= j < r.len() && r[j].name == n
}

/// Sorts the applications by name and keeps, of several with one name, the
/// one that came first.
pub fn build_index(apps: Vec<App>) -> (r: Vec<App>)
    ensures
        is_index_of(app_views(r@), app_views(apps@)),
{
    let ghost sv = app_views(apps@);
    let n: usize = apps.len();
    let mut rest = apps;
    let mut out: Vec<App> = Vec::new();
    let mut keys: Vec<Vec<char>> = Vec::new();
    let ghost mut ov: Seq<AppView> = Seq::empty();
    let ghost mut src: Seq<int> = Seq::empty();
    let mut taken: usize = 0;
    assert(app_views(rest@) =~= sv.skip(0));
    assert(app_views(out@) =~= ov);
    while rest.len() > 0
        invariant
            taken <= sv.len() == n,
            app_views(rest@) == sv.skip(taken as int),
            ov == app_views(out@),
            keys@.len() == ov.len(),
            src.len() == ov.len(),
            forall|j: int| 0 <= j < ov.len() ==> #[trigger] keys@[j]@ == ov[j].name,
            sorted_by_name(ov),
            forall|j: int|
                0 <= j < ov.len() ==> 0 <= #[trigger] src[j] < taken && first_with_name(
                    sv,
                    src[j],
                ) && ov[j] == sv[src[j]],
            forall|i: int| 0 <= i < taken ==> has_name(ov, #[trigger] sv[i].name),
        decreases rest@.len(),
    {
        let ghost before = rest@;
        let app = rest.remove(0);
        proof {
            assert(app_views(before).len() == before.len());
            assert(before.len() == sv.len() - taken);
            assert(app_views(before)[0] == before[0]@);
            assert(app_views(before)[0] == sv[taken as int]);
            assert forall|k: int| 0 <= k < rest@.len() implies #[trigger] app_views(rest@)[k]
                == sv.skip(taken + 1)[k] by {
                assert(rest@[k] == before[k + 1]);
                assert(app_views(before)[k + 1] == sv.skip(taken as int)[k + 1]);
            }
            assert(app_views(rest@) =~= sv.skip(taken + 1));
        }
        let ghost t = taken as int;
        let ghost x = sv[t];
        assert(app@ == x);
        let key = chars_of(app.name.as_str());
        let mut j: usize = 0;
        while j < keys.len() && chars_less(&keys[j], &key)
            invariant
                j <= keys@.len(),
                keys@.len() == ov.len(),
                forall|k: int| 0 <= k < ov.len() ==> #[trigger] keys@[k]@ == ov[k].name,
                key@ == x.name,
                forall|k: int| 0 <= k < j ==> lex_lt(#[trigger] ov[k].name, x.name),
            decreases keys@.len() - j,
        {
            j = j + 1;
        }
        if j < keys.len() && chars_equal(&keys[j], &key) {
            proof {
                assert(ov[j as int].name == sv[t].name);
                assert forall|i: int| 0 <= i < taken + 1 implies has_name(ov, #[trigger] sv[i].name) by {
                    if i == t {
                        assert(ov[j as int].name == sv[i].name);
                    }
                }
            }
        } else {
            proof {
                if j < ov.len() {
                    assert(keys@[j as int]@ == ov[j as int].name);
                    lemma_lex_total(x.name, ov[j as int].name);
                }
                assert forall|k: int| 0 <= k < ov.len() implies #[trigger] ov[k].name != x.name by {
                    lemma_lex_irreflexive(x.name);
                    if k > j {
                        lemma_lex_transitive(x.name, ov[j as int].name, ov[k].name);
                    }
                }
                assert forall|k: int| 0 <= k < t implies #[trigger] sv[k].name != sv[t].name by {
                    let jj = choose|jj: int| 0 <= jj < ov.len() && ov[jj].name == sv[k].name;
                    assert(ov[jj].name != x.name);
                }
                assert(first_with_name(sv, t));
            }
            let ghost old_ov = ov;
            let ghost old_src = src;
            let ghost old_keys = keys@;
            out.insert(j, app);
            keys.insert(j, key);
            proof {
                ov = old_ov.insert(j as int, x);
                src = old_src.insert(j as int, t);
                assert(app_views(out@) =~= ov);
                assert forall|k: int| 0 <= k < ov.len() implies #[trigger] keys@[k]@
                    == ov[k].name by {
                    if k < j {
                        assert(keys@[k] == old_keys[k]);
                    } else if k > j {
                        assert(keys@[k] == old_keys[k - 1]);
                    }
                }
                assert forall|a: int, b: int| 0 <= a < b < ov.len() implies lex_lt(
                    #[trigger] ov[a].name,
                    #[trigger] ov[b].name,
                ) by {
                    if a < j && b > j {
                        assert(lex_lt(old_ov[a].name, old_ov[b - 1].name));
                    } else if a == j && b > j + 1 {
                        lemma_lex_transitive(x.name, old_ov[j as int].name, old_ov[b - 1].name);
                    } else if a > j {
                        assert(lex_lt(old_ov[a - 1].name, old_ov[b - 1].name));
                    }
                }
                assert forall|i: int| 0 <= i < taken + 1 implies has_name(ov, #[trigger] sv[i].name) by {
                    if i == t {
                        assert(ov[j as int].name == sv[i].name);
                    } else {
                        let jj = choose|jj: int| 0 <= jj < old_ov.len() && old_ov[jj].name == sv[i].name;
                        if jj < j {
                            assert(ov[jj].name == sv[i].name);
                        } else {
                            assert(ov[jj + 1].name == sv[i].name);
                        }
                    }
                }
                assert forall|k: int| 0 <= k < ov.len() implies 0 <= #[trigger] src[k] < taken + 1
                    && first_with_name(sv, src[k]) && ov[k] == sv[src[k]] by {
                    if k < j {
                        assert(src[k] == old_src[k]);
                    } else if k > j {
                        assert(src[k] == old_src[k - 1]);
                    }
                }
            }
        }
        taken = taken + 1;
    }
    proof {
        assert(app_views(rest@).len() == rest@.len());
        assert(taken == sv.len());
        assert forall|j: int| 0 <= j < ov.len() implies is_first_entry(sv, #[trigger] ov[j]) by {
            assert(first_with_name(sv, src[j]) && sv[src[j]] == ov[j]);
        }
        assert forall|i: int| 0 <= i < sv.len() implies has_name(ov, #[trigger] sv[i].name) by {
            assert(i < taken);
        }
        assert(sorted_by_name(ov));
        assert(is_index_of(ov, sv));
    }
    out
}

} // verus!
