//! The site inventory: which FQDNs the console may manage.
use vstd::prelude::*;

use crate::correlate::vviews;
use crate::findings::{sort_spec, sort_texts, sviews};
use crate::json::{bool_or, clone_fields, clone_json, fview, get, get_bool_or, jget, obj_set, set_entry, Json, JsonV};
use crate::netguard::{sanitize_hostname, sanitized_host};
use crate::text::{chars_of, eq_chars, string_of, trim, trim_chars};

verus! {

/// The catalog read from `sites.json` (or `WAF_SITES_JSON` / `WAF_HOSTS`), hosts sanitized.
pub struct Catalog {
    /// In-scope sites by host, with their metadata objects.
    pub sites: Vec<(String, Json)>,
    /// Hosts refused by policy create/update, with the reason.
    pub out_of_scope: Vec<(String, Json)>,
    /// The hosts probed and listed on the dashboard.
    pub hosts: Vec<String>,
}

/// Some entry of `fields` has key `k`.
pub open spec fn has_key(fields: Seq<(String, Json)>, k: Seq<char>) -> bool {
    exists|i: int| 0 <= i < fields.len() && #[trigger] fields[i].0@ == k
}

/// Whether some entry of `fields` has key `k`.
pub fn key_in(fields: &Vec<(String, Json)>, k: &Vec<char>) -> (r: bool)
    ensures
        r == has_key(fields@, k@),
{
    let mut i: usize = 0;
    while i < fields.len()
        invariant
            i <= fields.len(),
            forall|m: int| 0 <= m < i ==> #[trigger] fields@[m].0@ != k@,
        decreases fields.len() - i,
    {
        let kc = chars_of(fields[i].0.as_str());
        if eq_chars(&kc, k) {
            return true;
        }
        i = i + 1;
    }
    false
}

} // verus!

verus! {

/// The entries of the object under `k` (none when it is not an object).
pub open spec fn object_entries(d: JsonV, k: Seq<char>) -> Seq<(Seq<char>, JsonV)> {
    match jget(d, k) {
        Some(JsonV::Object(f)) => f,
        _ => Seq::empty(),
    }
}

/// The sites of a catalog: entries whose host sanitizes and whose metadata is an object,
/// under the sanitized host (a later entry replaces an earlier one with the same host).
pub open spec fn clean_sites(entries: Seq<(Seq<char>, JsonV)>) -> Seq<(Seq<char>, JsonV)>
    decreases entries.len(),
{
    if entries.len() == 0 {
        Seq::empty()
    } else {
        let p = clean_sites(entries.drop_last());
        let (h, meta) = entries.last();
        match sanitized_host(h) {
            Some(c) => if meta is Object {
                set_entry(p, c, meta)
            } else {
                p
            },
            None => p,
        }
    }
}

/// The out-of-scope hosts of a catalog under their sanitized names, with their reasons.
pub open spec fn clean_out_of_scope(entries: Seq<(Seq<char>, JsonV)>) -> Seq<(Seq<char>, JsonV)>
    decreases entries.len(),
{
    if entries.len() == 0 {
        Seq::empty()
    } else {
        let p = clean_out_of_scope(entries.drop_last());
        let (h, why) = entries.last();
        match sanitized_host(h) {
            Some(c) => set_entry(p, c, why),
            None => p,
        }
    }
}

/// The sanitized hosts among a list of values (non-text and invalid ones skipped).
pub open spec fn clean_hosts(items: Seq<JsonV>) -> Seq<Seq<char>>
    decreases items.len(),
{
    if items.len() == 0 {
        Seq::empty()
    } else {
        let p = clean_hosts(items.drop_last());
        match items.last() {
            JsonV::Str(s) => match sanitized_host(s) {
                Some(c) => p.push(c),
                None => p,
            },
            _ => p,
        }
    }
}

/// The hosts of the sites that are in scope (`in_scope` absent counts as true).
pub open spec fn in_scope_keys(sites: Seq<(Seq<char>, JsonV)>) -> Seq<Seq<char>>
    decreases sites.len(),
{
    if sites.len() == 0 {
        Seq::empty()
    } else {
        let p = in_scope_keys(sites.drop_last());
        if bool_or(sites.last().1, "in_scope"@, true) {
            p.push(sites.last().0)
        } else {
            p
        }
    }
}

/// The hosts of a catalog: its `hosts` list when it has one, else its in-scope sites in
/// host order.
pub open spec fn catalog_hosts(d: JsonV) -> Seq<Seq<char>> {
    match jget(d, "hosts"@) {
        Some(JsonV::Array(items)) => clean_hosts(items),
        _ => sort_spec(in_scope_keys(clean_sites(object_entries(d, "sites"@)))),
    }
}

/// The entries of the object under `k`.
fn object_entries_exec(d: &Json, k: &str) -> (r: Vec<(String, Json)>)
    ensures
        fview(r@) == object_entries(d@, k@),
{
    let v = get(d, k);
    match v {
        Some(Json::Object(f)) => {
            proof {
                crate::json::lemma_object_fview(*v->Some_0);
            }
            clone_fields(f)
        },
        _ => {
            let r: Vec<(String, Json)> = Vec::new();
            assert(fview(r@) =~= Seq::<(Seq<char>, JsonV)>::empty());
            r
        },
    }
}

/// Reads the site catalog from its parsed JSON document (anything but an object reads as an
/// empty catalog): sites and out-of-scope hosts under sanitized names, and the hosts list.
#[verifier::rlimit(30)]
pub fn load_catalog(data: &Json) -> (r: Catalog)
    ensures
        fview(r.sites@) == clean_sites(object_entries(data@, "sites"@)),
        fview(r.out_of_scope@) == clean_out_of_scope(object_entries(data@, "out_of_scope"@)),
        sviews(r.hosts@) == catalog_hosts(data@),
{
    let raw_sites = object_entries_exec(data, "sites");
    let ghost es = fview(raw_sites@);
    let mut sites: Vec<(String, Json)> = Vec::new();
    let mut i: usize = 0;
    assert(es.take(0) =~= Seq::<(Seq<char>, JsonV)>::empty());
    assert(fview(sites@) =~= Seq::<(Seq<char>, JsonV)>::empty());
    while i < raw_sites.len()
        invariant
            i <= raw_sites@.len() == es.len(),
            es == fview(raw_sites@),
            fview(sites@) == clean_sites(es.take(i as int)),
        decreases raw_sites.len() - i,
    {
        assert(es.take(i + 1).drop_last() =~= es.take(i as int));
        assert(es.take(i + 1).last() == es[i as int]);
        match sanitize_hostname(raw_sites[i].0.as_str()) {
            Ok(c) => match &raw_sites[i].1 {
                Json::Object(_) => {
                    obj_set(&mut sites, c.as_str(), clone_json(&raw_sites[i].1));
                },
                _ => {},
            },
            Err(_) => {},
        }
        i = i + 1;
    }
    assert(es.take(raw_sites.len() as int) =~= es);
    let raw_oos = object_entries_exec(data, "out_of_scope");
    let ghost os = fview(raw_oos@);
    let mut oos: Vec<(String, Json)> = Vec::new();
    let mut j: usize = 0;
    assert(os.take(0) =~= Seq::<(Seq<char>, JsonV)>::empty());
    assert(fview(oos@) =~= Seq::<(Seq<char>, JsonV)>::empty());
    while j < raw_oos.len()
        invariant
            j <= raw_oos@.len() == os.len(),
            os == fview(raw_oos@),
            fview(oos@) == clean_out_of_scope(os.take(j as int)),
        decreases raw_oos.len() - j,
    {
        assert(os.take(j + 1).drop_last() =~= os.take(j as int));
        assert(os.take(j + 1).last() == os[j as int]);
        match sanitize_hostname(raw_oos[j].0.as_str()) {
            Ok(c) => {
                obj_set(&mut oos, c.as_str(), clone_json(&raw_oos[j].1));
            },
            Err(_) => {},
        }
        j = j + 1;
    }
    assert(os.take(raw_oos.len() as int) =~= os);
    let hosts = catalog_hosts_exec(data, &sites);
    Catalog { sites, out_of_scope: oos, hosts }
}

/// The hosts of a catalog, given its cleaned sites.
fn catalog_hosts_exec(data: &Json, sites: &Vec<(String, Json)>) -> (r: Vec<String>)
    requires
        fview(sites@) == clean_sites(object_entries(data@, "sites"@)),
    ensures
        sviews(r@) == catalog_hosts(data@),
{
    let hv = get(data, "hosts");
    match hv {
        Some(Json::Array(items)) => {
            proof {
                crate::json::lemma_array_view(*hv->Some_0);
            }
            let ghost iv = hv->Some_0@->Array_0;
            let mut out: Vec<String> = Vec::new();
            let mut i: usize = 0;
            assert(iv.take(0) =~= Seq::<JsonV>::empty());
            while i < items.len()
                invariant
                    i <= items@.len() == iv.len(),
                    forall|k: int| 0 <= k < items@.len() ==> #[trigger] iv[k] == items@[k]@,
                    sviews(out@) == clean_hosts(iv.take(i as int)),
                decreases items.len() - i,
            {
                assert(iv.take(i + 1).drop_last() =~= iv.take(i as int));
                assert(iv.take(i + 1).last() == items@[i as int]@);
                match &items[i] {
                    Json::Str(s) => match sanitize_hostname(s.as_str()) {
                        Ok(c) => {
                            let ghost o = out@;
                            out.push(c);
                            assert(sviews(out@) =~= sviews(o).push(out@.last()@));
                        },
                        Err(_) => {},
                    },
                    _ => {},
                }
                i = i + 1;
            }
            assert(iv.take(items.len() as int) =~= iv);
            out
        },
        _ => {
            let ghost sv = fview(sites@);
            let mut keys: Vec<Vec<char>> = Vec::new();
            let mut i: usize = 0;
            assert(sv.take(0) =~= Seq::<(Seq<char>, JsonV)>::empty());
            while i < sites.len()
                invariant
                    i <= sites@.len() == sv.len(),
                    sv == fview(sites@),
                    vviews(keys@) == in_scope_keys(sv.take(i as int)),
                decreases sites.len() - i,
            {
                assert(sv.take(i + 1).drop_last() =~= sv.take(i as int));
                assert(sv.take(i + 1).last() == sv[i as int]);
                if get_bool_or(&sites[i].1, "in_scope", true) {
                    let ghost o = keys@;
                    keys.push(chars_of(sites[i].0.as_str()));
                    assert(vviews(keys@) =~= vviews(o).push(sv[i as int].0));
                }
                i = i + 1;
            }
            assert(sv.take(sites.len() as int) =~= sv);
            let sorted = sort_texts(keys);
            let mut out: Vec<String> = Vec::new();
            let mut k: usize = 0;
            while k < sorted.len()
                invariant
                    k <= sorted@.len(),
                    sviews(out@) == vviews(sorted@).take(k as int),
                decreases sorted.len() - k,
            {
                let ghost o = out@;
                let t = string_of(&sorted[k]);
                assert(t@ == vviews(sorted@)[k as int]);
                out.push(t);
                assert(sviews(out@) =~= sviews(o).push(t@));
                assert(sviews(out@) =~= vviews(sorted@).take(k + 1));
                k = k + 1;
            }
            assert(vviews(sorted@).take(sorted.len() as int) =~= vviews(sorted@));
            out
        },
    }
}

/// The hosts probed and listed: the `WAF_HOSTS` setting (comma-separated, each sanitized,
/// invalid ones dropped) when it is not blank, else the catalog's hosts.
pub fn in_scope_hosts(setting: &str, cat: &Catalog) -> (r: Vec<String>)
    ensures
        trim(setting@).len() > 0 ==> sviews(r@) == clean_hosts(
            crate::lapi::split_pieces(setting@).map_values(|p: Seq<char>| JsonV::Str(p)),
        ),
        trim(setting@).len() == 0 ==> sviews(r@) == sviews(cat.hosts@),
{
    let c = chars_of(setting);
    if trim_chars(&c).len() == 0 {
        return crate::findings::clone_strings(&cat.hosts);
    }
    let pieces = crate::lapi::split_on_comma(setting);
    let ghost pv = crate::lapi::split_pieces(setting@).map_values(|p: Seq<char>| JsonV::Str(p));
    let mut out: Vec<String> = Vec::new();
    let mut i: usize = 0;
    assert(pv.take(0) =~= Seq::<JsonV>::empty());
    while i < pieces.len()
        invariant
            i <= pieces@.len() == pv.len(),
            pv == crate::lapi::split_pieces(setting@).map_values(|p: Seq<char>| JsonV::Str(p)),
            forall|k: int| 0 <= k < pieces@.len() ==> pv[k] == JsonV::Str(#[trigger] pieces@[k]@),
            sviews(out@) == clean_hosts(pv.take(i as int)),
        decreases pieces.len() - i,
    {
        assert(pv.take(i + 1).drop_last() =~= pv.take(i as int));
        assert(pv.take(i + 1).last() == JsonV::Str(pieces@[i as int]@));
        match sanitize_hostname(pieces[i].as_str()) {
            Ok(h) => {
                let ghost o = out@;
                out.push(h);
                assert(sviews(out@) =~= sviews(o).push(out@.last()@));
            },
            Err(_) => {},
        }
        i = i + 1;
    }
    assert(pv.take(pieces.len() as int) =~= pv);
    out
}

} // verus!
