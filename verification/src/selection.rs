use vstd::prelude::*;

verus! {

use crate::strutil::str_eq;

/// Mathematical image of a `DiscoveredModel`.
#[verifier::ext_equal]
pub ghost struct DiscoveredView {
    pub name: Seq<char>,
    pub primary_blob_path: Option<Seq<char>>,
}

/// A model reported by the store scanner: its name and, when one could be
/// resolved, the path of its primary artifact.
pub struct DiscoveredModel {
    pub name: String,
    pub primary_blob_path: Option<String>,
}

impl View for DiscoveredModel {
    type V = DiscoveredView;

    open spec fn view(&self) -> DiscoveredView {
        DiscoveredView {
            name: self.name@,
            primary_blob_path: self.primary_blob_path.deep_view(),
        }
    }
}

impl DeepView for DiscoveredModel {
    type V = DiscoveredView;

    open spec fn deep_view(&self) -> DiscoveredView {
        self.view()
    }
}

/// Mathematical image of a `SelectedModel`.
#[verifier::ext_equal]
pub ghost struct SelectedView {
    pub name: Seq<char>,
    pub model_path: Seq<char>,
}

/// A model that will be imported: it is in scope and has an artifact path.
pub struct SelectedModel {
    pub name: String,
    pub model_path: String,
}

impl View for SelectedModel {
    type V = SelectedView;

    open spec fn view(&self) -> SelectedView {
        SelectedView { name: self.name@, model_path: self.model_path@ }
    }
}

impl DeepView for SelectedModel {
    type V = SelectedView;

    open spec fn deep_view(&self) -> SelectedView {
        self.view()
    }
}

/// Whether a discovered model is asked for: a listed name wins over the
/// import-all switch, which only counts when no list is given.
pub open spec fn in_scope(
    m: DiscoveredView,
    specify: Option<Seq<Seq<char>>>,
    all_models: bool,
) -> bool {
    match specify {
        Some(names) => names.contains(m.name),
        None => all_models,
    }
}

/// The models to import, in discovery order: those in scope that have an
/// artifact path.
pub open spec fn selected_spec(
    ms: Seq<DiscoveredView>,
    specify: Option<Seq<Seq<char>>>,
    all_models: bool,
) -> Seq<SelectedView>
    decreases ms.len(),
{
    if ms.len() == 0 {
        Seq::empty()
    } else {
        let rest = selected_spec(ms.drop_last(), specify, all_models);
        let m = ms.last();
        if in_scope(m, specify, all_models) && m.primary_blob_path is Some {
            rest.push(SelectedView { name: m.name, model_path: m.primary_blob_path->Some_0 })
        } else {
            rest
        }
    }
}

/// Whether some element of `names` equals `s`.
pub fn contains_string(names: &Vec<String>, s: &String) -> (r: bool)
    ensures
        r == names.deep_view().contains(s@),
{
    let n = names.len();
    let mut i: usize = 0;
    while i < n
        invariant
            i <= n,
            n == names@.len(),
            forall|j: int| 0 <= j < i ==> names.deep_view()[j] != s@,
        decreases n - i,
    {
        if str_eq(names[i].as_str(), s.as_str()) {
            proof {
                assert(names.deep_view()[i as int] == s@);
            }
            return true;
        }
        i += 1;
    }
    proof {
        if names.deep_view().contains(s@) {
            let j = choose|j: int|
                0 <= j < names.deep_view().len() && names.deep_view()[j] == s@;
            assert(names.deep_view()[j] != s@);
        }
    }
    false
}

/// Pick the models to import.  An explicit name list selects exactly the
/// discovered models it names; otherwise the import-all switch decides; models
/// without an artifact path are dropped either way.
pub fn select_models(
    models: &Vec<DiscoveredModel>,
    specify_models: Option<&Vec<String>>,
    all_models: bool,
) -> (r: Vec<SelectedModel>)
    ensures
        r.deep_view() == selected_spec(models.deep_view(), specify_models.deep_view(), all_models),
{
    let ghost gspec = specify_models.deep_view();
    let n = models.len();
    let mut out: Vec<SelectedModel> = Vec::new();
    let mut i: usize = 0;
    proof {
        assert(models.deep_view().take(0) =~= Seq::<DiscoveredView>::empty());
    }
    while i < n
        invariant
            i <= n,
            n == models@.len(),
            gspec == specify_models.deep_view(),
            out.deep_view() == selected_spec(models.deep_view().take(i as int), gspec, all_models),
        decreases n - i,
    {
        let m = &models[i];
        let keep: bool = match specify_models {
            Some(list) => contains_string(list, &m.name),
            None => all_models,
        };
        proof {
            assert(models.deep_view().take(i + 1).drop_last() =~= models.deep_view().take(
                i as int,
            ));
            assert(models.deep_view().take(i + 1).last() == models.deep_view()[i as int]);
            assert(keep == in_scope(models.deep_view()[i as int], gspec, all_models));
        }
        if keep {
            match &m.primary_blob_path {
                Some(p) => {
                    let ghost pre = out.deep_view();
                    out.push(SelectedModel { name: m.name.clone(), model_path: p.clone() });
                    proof {
                        assert(out.deep_view() =~= pre.push(
                            SelectedView { name: m@.name, model_path: p@ },
                        ));
                    }
                },
                None => {},
            }
        }
        i += 1;
    }
    proof {
        assert(models.deep_view().take(n as int) =~= models.deep_view());
    }
    out
}

} // verus!
