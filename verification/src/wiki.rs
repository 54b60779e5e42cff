//! The wiki catalog: the mapping from wiki ids and slugs to wikis.
//!
//! Wiki ids are assigned consecutively from 1, so the catalog is a vector
//! indexed by `wiki_id - 1`. Slugs are normalized on creation and unique, as
//! are domains; wikis are never destroyed.

use vstd::prelude::*;

use crate::error::Error;
use crate::slug::{normalize, normalize_chars};
use crate::store::clone_string;
use crate::text::{first_where, lemma_first_where_bounds, lemma_first_where_holds, str_eq};

verus! {

/// One wiki of the catalog.
pub struct Wiki {
    /// The identity, `position in the catalog + 1`.
    pub wiki_id: u64,
    /// The display name; mutable.
    pub name: String,
    /// The normalized slug; immutable after creation.
    pub slug: String,
    /// The DNS-style domain; mutable, unique.
    pub domain: String,
}

/// The mathematical shape of a wiki.
pub ghost struct WikiV {
    /// The identity.
    pub wiki_id: u64,
    /// The display name.
    pub name: Seq<char>,
    /// The normalized slug.
    pub slug: Seq<char>,
    /// The domain.
    pub domain: Seq<char>,
}

impl View for Wiki {
    type V = WikiV;

    open spec fn view(&self) -> WikiV {
        WikiV { wiki_id: self.wiki_id, name: self.name@, slug: self.slug@, domain: self.domain@ }
    }
}

impl Wiki {
    /// The wiki's id.
    pub fn id(&self) -> (r: u64)
        ensures
            r == self@.wiki_id,
    {
        self.wiki_id
    }

    /// The wiki's display name.
    pub fn name(&self) -> (r: &str)
        ensures
            r@ == self@.name,
    {
        self.name.as_str()
    }

    /// The wiki's slug.
    pub fn slug(&self) -> (r: &str)
        ensures
            r@ == self@.slug,
    {
        self.slug.as_str()
    }

    /// The wiki's domain.
    pub fn domain(&self) -> (r: &str)
        ensures
            r@ == self@.domain,
    {
        self.domain.as_str()
    }

    /// A copy of this wiki.
    pub fn duplicate(&self) -> (r: Wiki)
        ensures
            r@ == self@,
    {
        Wiki {
            wiki_id: self.wiki_id,
            name: clone_string(&self.name),
            slug: clone_string(&self.slug),
            domain: clone_string(&self.domain),
        }
    }
}

/// The in-memory wiki catalog.
pub struct WikiService {
    wikis: Vec<Wiki>,
}

impl View for WikiService {
    type V = Seq<WikiV>;

    closed spec fn view(&self) -> Seq<WikiV> {
        self.wikis@.map_values(|w: Wiki| w@)
    }
}

/// The index of the wiki with the given slug, if any.
pub open spec fn wiki_slug_idx(wikis: Seq<WikiV>, slug: Seq<char>) -> Option<int> {
    first_where(wikis, |w: WikiV| w.slug == slug)
}

/// The index of the wiki with the given domain, if any.
pub open spec fn wiki_domain_idx(wikis: Seq<WikiV>, domain: Seq<char>) -> Option<int> {
    first_where(wikis, |w: WikiV| w.domain == domain)
}

impl WikiService {
    /// Well-formed catalog: ids follow positions, slugs and domains unique.
    pub open spec fn wf(&self) -> bool {
        &&& forall|i: int| 0 <= i < self@.len() ==> (#[trigger] self@[i]).wiki_id == i + 1
        &&& forall|i: int, j: int|
            0 <= i < j < self@.len() ==> (#[trigger] self@[i]).slug != (#[trigger] self@[j]).slug
        &&& forall|i: int, j: int|
            0 <= i < j < self@.len() ==> (#[trigger] self@[i]).domain != (
            #[trigger] self@[j]).domain
    }

    /// Room for one more wiki.
    pub open spec fn can_create(&self) -> bool {
        self@.len() < 0xffff_ffff_ffff_ffff
    }

    /// Creates an empty catalog.
    pub fn new() -> (s: Self)
        ensures
            s@ =~= Seq::<WikiV>::empty(),
            s.wf(),
    {
        let s = WikiService { wikis: Vec::new() };
        proof {
            assert(s@ =~= Seq::<WikiV>::empty());
        }
        s
    }

    /// Creates a wiki. The slug is normalized; an empty normalization fails
    /// with `SlugNotNormal`, a colliding slug or domain with `WikiExists`.
    /// Returns the new wiki's id.
    pub fn create(&mut self, name: &str, slug: &str, domain: &str) -> (r: Result<u64, Error>)
        requires
            old(self).wf(),
            old(self).can_create(),
        ensures
            final(self).wf(),
            match r {
                Ok(id) => {
                    &&& normalize_chars(slug@).len() > 0
                    &&& wiki_slug_idx(old(self)@, normalize_chars(slug@)) is None
                    &&& wiki_domain_idx(old(self)@, domain@) is None
                    &&& id == old(self)@.len() + 1
                    &&& final(self)@ == old(self)@.push(
                        (WikiV {
                            wiki_id: (old(self)@.len() + 1) as u64,
                            name: name@,
                            slug: normalize_chars(slug@),
                            domain: domain@,
                        }),
                    )
                },
                Err(e) => {
                    &&& final(self)@ == old(self)@
                    &&& match e {
                        Error::SlugNotNormal => normalize_chars(slug@).len() == 0,
                        Error::WikiExists => normalize_chars(slug@).len() > 0 && (wiki_slug_idx(
                            old(self)@,
                            normalize_chars(slug@),
                        ) is Some || wiki_domain_idx(old(self)@, domain@) is Some),
                        _ => false,
                    }
                },
            },
    {
        let slug_n = normalize(slug);
        if slug_n.as_str().unicode_len() == 0 {
            return Err(Error::SlugNotNormal);
        }
        if let Some(_) = self.find_slug(slug_n.as_str()) {
            return Err(Error::WikiExists);
        }
        if let Some(_) = self.find_domain(domain) {
            return Err(Error::WikiExists);
        }
        let id = (self.wikis.len() as u64) + 1;
        let w = Wiki { wiki_id: id, name: name.to_owned(), slug: slug_n, domain: domain.to_owned() };
        self.wikis.push(w);
        proof {
            assert(final(self)@ =~= old(self)@.push(
                (WikiV {
                    wiki_id: (old(self)@.len() + 1) as u64,
                    name: name@,
                    slug: normalize_chars(slug@),
                    domain: domain@,
                }),
            ));
            assert forall|i: int| 0 <= i < final(self)@.len()
                implies (#[trigger] final(self)@[i]).wiki_id == i + 1 by {
                if i < old(self)@.len() {
                    assert(final(self)@[i] == old(self)@[i]);
                }
            }
            lemma_first_where_bounds(old(self)@, |w: WikiV| w.slug == normalize_chars(slug@));
            lemma_first_where_bounds(old(self)@, |w: WikiV| w.domain == domain@);
            assert forall|i: int, j: int| 0 <= i < j < final(self)@.len()
                implies (#[trigger] final(self)@[i]).slug != (#[trigger] final(self)@[j]).slug by {
                if j < old(self)@.len() {
                    assert(final(self)@[i] == old(self)@[i] && final(self)@[j] == old(self)@[j]);
                } else {
                    assert(final(self)@[i] == old(self)@[i]);
                }
            }
            assert forall|i: int, j: int| 0 <= i < j < final(self)@.len()
                implies (#[trigger] final(self)@[i]).domain != (
                #[trigger] final(self)@[j]).domain by {
                if j < old(self)@.len() {
                    assert(final(self)@[i] == old(self)@[i] && final(self)@[j] == old(self)@[j]);
                } else {
                    assert(final(self)@[i] == old(self)@[i]);
                }
            }
        }
        Ok(id)
    }

    /// The catalog position of the wiki with this exact slug.
    fn find_slug(&self, slug: &str) -> (r: Option<usize>)
        ensures
            match r {
                Some(k) => k < self@.len() && wiki_slug_idx(self@, slug@) == Some(k as int),
                None => wiki_slug_idx(self@, slug@) is None,
            },
    {
        let mut i: usize = 0;
        while i < self.wikis.len()
            invariant
                i <= self.wikis@.len(),
                self@.len() == self.wikis@.len(),
                forall|j: int| 0 <= j < i ==> (#[trigger] self@[j]).slug != slug@,
            decreases self.wikis@.len() - i,
        {
            proof {
                assert(self@[i as int] == self.wikis@[i as int]@);
            }
            if str_eq(self.wikis[i].slug.as_str(), slug) {
                proof {
                    lemma_first_where_holds(self@, |w: WikiV| w.slug == slug@, i as int);
                }
                return Some(i);
            }
            i += 1;
        }
        proof {
            lemma_first_where_bounds(self@, |w: WikiV| w.slug == slug@);
        }
        None
    }

    /// The catalog position of the wiki with this exact domain.
    fn find_domain(&self, domain: &str) -> (r: Option<usize>)
        ensures
            match r {
                Some(k) => k < self@.len() && wiki_domain_idx(self@, domain@) == Some(k as int),
                None => wiki_domain_idx(self@, domain@) is None,
            },
    {
        let mut i: usize = 0;
        while i < self.wikis.len()
            invariant
                i <= self.wikis@.len(),
                self@.len() == self.wikis@.len(),
                forall|j: int| 0 <= j < i ==> (#[trigger] self@[j]).domain != domain@,
            decreases self.wikis@.len() - i,
        {
            proof {
                assert(self@[i as int] == self.wikis@[i as int]@);
            }
            if str_eq(self.wikis[i].domain.as_str(), domain) {
                proof {
                    lemma_first_where_holds(self@, |w: WikiV| w.domain == domain@, i as int);
                }
                return Some(i);
            }
            i += 1;
        }
        proof {
            lemma_first_where_bounds(self@, |w: WikiV| w.domain == domain@);
        }
        None
    }

    /// The wiki with the given id, or `WikiNotFound`.
    pub fn get_by_id(&self, id: u64) -> (r: Result<&Wiki, Error>)
        ensures
            match r {
                Ok(w) => 1 <= id <= self@.len() && w@ == self@[id - 1],
                Err(e) => e == Error::WikiNotFound && !(1 <= id <= self@.len()),
            },
    {
        if id >= 1 && id <= self.wikis.len() as u64 {
            let k = (id - 1) as usize;
            let w = &self.wikis[k];
            proof {
                assert(self@[k as int] == self.wikis@[k as int]@);
            }
            Ok(w)
        } else {
            Err(Error::WikiNotFound)
        }
    }

    /// The wiki with the given (already normalized) slug, or `WikiNotFound`.
    pub fn get_by_slug(&self, slug: &str) -> (r: Result<&Wiki, Error>)
        ensures
            match r {
                Ok(w) => {
                    &&& wiki_slug_idx(self@, slug@) is Some
                    &&& w@ == self@[wiki_slug_idx(self@, slug@)->Some_0]
                },
                Err(e) => e == Error::WikiNotFound && wiki_slug_idx(self@, slug@) is None,
            },
    {
        match self.find_slug(slug) {
            Some(k) => {
                proof {
                    assert(self@[k as int] == self.wikis@[k as int]@);
                }
                Ok(&self.wikis[k])
            },
            None => Err(Error::WikiNotFound),
        }
    }

    /// Partially updates name and domain; `None` leaves a field unchanged.
    /// A colliding new domain fails with `WikiExists`; a bad id with
    /// `WikiNotFound`; both changes applied or neither.
    pub fn edit(&mut self, id: u64, name: Option<&str>, domain: Option<&str>) -> (r: Result<
        (),
        Error,
    >)
        requires
            old(self).wf(),
        ensures
            final(self).wf(),
            match r {
                Ok(()) => {
                    &&& 1 <= id <= old(self)@.len()
                    &&& final(self)@.len() == old(self)@.len()
                    &&& final(self)@[id - 1] == (WikiV {
                        wiki_id: old(self)@[id - 1].wiki_id,
                        name: match name {
                            Some(n) => n@,
                            None => old(self)@[id - 1].name,
                        },
                        slug: old(self)@[id - 1].slug,
                        domain: match domain {
                            Some(d) => d@,
                            None => old(self)@[id - 1].domain,
                        },
                    })
                    &&& forall|j: int|
                        0 <= j < old(self)@.len() && j != id - 1 ==> final(self)@[j] == old(
                            self,
                        )@[j]
                    &&& match domain {
                        Some(d) => d@ == old(self)@[id - 1].domain || wiki_domain_idx(
                            old(self)@,
                            d@,
                        ) is None,
                        None => true,
                    }
                },
                Err(e) => {
                    &&& final(self)@ == old(self)@
                    &&& match e {
                        Error::WikiNotFound => !(1 <= id <= old(self)@.len()),
                        Error::WikiExists => 1 <= id <= old(self)@.len() && (match domain {
                            Some(d) => d@ != old(self)@[id - 1].domain && wiki_domain_idx(
                                old(self)@,
                                d@,
                            ) is Some,
                            None => false,
                        }),
                        _ => false,
                    }
                },
            },
    {
        if !(id >= 1 && id <= self.wikis.len() as u64) {
            return Err(Error::WikiNotFound);
        }
        let k = (id - 1) as usize;
        proof {
            assert(self@[k as int] == self.wikis@[k as int]@);
        }
        if let Some(d) = domain {
            if !str_eq(self.wikis[k].domain.as_str(), d) {
                if let Some(_) = self.find_domain(d) {
                    return Err(Error::WikiExists);
                }
            }
        }
        let ghost oldv = self@;
        if let Some(n) = name {
            let w = &mut self.wikis[k];
            w.name = n.to_owned();
        }
        if let Some(d) = domain {
            let w = &mut self.wikis[k];
            w.domain = d.to_owned();
        }
        proof {
            assert(self@.len() == oldv.len());
            assert forall|i: int| 0 <= i < self@.len() implies #[trigger] self@[i] == (
            if i == k {
                WikiV {
                    wiki_id: oldv[k as int].wiki_id,
                    name: match name {
                        Some(n) => n@,
                        None => oldv[k as int].name,
                    },
                    slug: oldv[k as int].slug,
                    domain: match domain {
                        Some(d) => d@,
                        None => oldv[k as int].domain,
                    },
                }
            } else {
                oldv[i]
            }) by {
                assert(self@[i] == self.wikis@[i]@);
            }
            assert forall|i: int, j: int| 0 <= i < j < self@.len()
                implies (#[trigger] self@[i]).domain != (#[trigger] self@[j]).domain by {
                if i != k && j != k {
                    assert(self@[i] == oldv[i] && self@[j] == oldv[j]);
                } else {
                    let other = if i == k {
                        j
                    } else {
                        i
                    };
                    assert(self@[other] == oldv[other]);
                    match domain {
                        Some(d) => {
                            if d@ != oldv[k as int].domain {
                                if oldv[other].domain == d@ {
                                    lemma_first_where_holds_domain(oldv, d@, other);
                                }
                            }
                        },
                        None => {},
                    }
                }
            }
        }
        Ok(())
    }
}

/// If some wiki has the domain, `wiki_domain_idx` finds one.
proof fn lemma_first_where_holds_domain(wikis: Seq<WikiV>, domain: Seq<char>, k: int)
    requires
        0 <= k < wikis.len(),
        wikis[k].domain == domain,
    ensures
        wiki_domain_idx(wikis, domain) is Some,
{
    lemma_first_where_bounds(wikis, |w: WikiV| w.domain == domain);
    if wiki_domain_idx(wikis, domain) is None {
        assert(!(|w: WikiV| w.domain == domain)(wikis[k]));
    }
}

} // verus!
