//! The document fetcher: it answers a request for a page from the cache
//! where it can, and stores what was fetched where it could not.

use crate::cache::{lookup, Cache};
use crate::docs_parser::{DocContent, DocsFetchError, DocsRsParams, ParamsView};
use vstd::prelude::*;

verus! {

/// What the cache has for a request.
#[derive(Debug)]
pub enum CacheAnswer {
    /// The page is cached; the field holds a copy of its content.
    Hit(DocContent),
    /// The page is not cached and has to be fetched; the field holds the
    /// page's parameters.
    Miss(DocsRsParams),
}

/// Fetches documentation pages through a cache.
#[derive(Debug)]
pub struct DocFetcher<C: Cache> {
    cache: C,
}

impl<C: Cache> DocFetcher<C> {
    /// The table of the fetcher's cache.
    pub closed spec fn table(&self) -> Map<ParamsView, Seq<char>> {
        self.cache.table()
    }

    /// A fetcher that works with `cache`.
    pub fn new(cache: C) -> (fetcher: Self)
        ensures
            fetcher.table() == cache.table(),
    {
        DocFetcher { cache }
    }

    /// The fetcher's cache.
    pub fn cache(&self) -> (cache: &C)
        ensures
            cache.table() == self.table(),
    {
        &self.cache
    }

    /// The fetcher's cache, to change it in place.
    pub fn cache_mut(&mut self) -> (cache: &mut C)
        ensures
            cache.table() == old(self).table(),
            final(self).table() == final(cache).table(),
    {
        &mut self.cache
    }

    /// Gives the cache back.
    pub fn into_cache(self) -> (cache: C)
        ensures
            cache.table() == self.table(),
    {
        self.cache
    }

    /// Tells whether the page `params` is cached.
    pub fn is_cached(&self, params: &DocsRsParams) -> (cached: bool)
        ensures
            cached == self.table().contains_key(params@),
    {
        self.cache.contains_key(params)
    }

    /// Removes every page from the cache.
    pub fn clear_cache(&mut self)
        ensures
            final(self).table() == Map::<ParamsView, Seq<char>>::empty(),
    {
        self.cache.clear();
    }

    /// Looks a requested page up in the cache.
    ///
    /// A cached page is answered with a copy of its content. For any other
    /// page the answer holds the parameters under which the page is to be
    /// fetched and, once fetched, stored.
    pub fn lookup_document(&self, crate_name: String, version: String, path: String) -> (answer:
        CacheAnswer)
        ensures
            match answer {
                CacheAnswer::Hit(content) => lookup(
                    self.table(),
                    ParamsView { crate_name: crate_name@, version: version@, path: path@ },
                ) == Some(content@),
                CacheAnswer::Miss(params) => {
                    &&& params@ == ParamsView {
                        crate_name: crate_name@,
                        version: version@,
                        path: path@,
                    }
                    &&& lookup(self.table(), params@) is None
                },
            },
    {
        let params = DocsRsParams { crate_name, version, path };
        match self.cache.get(&params) {
            Some(content) => CacheAnswer::Hit(content),
            None => CacheAnswer::Miss(params),
        }
    }

    /// Takes in what fetching the page `params` gave.
    ///
    /// Content that was fetched is stored under `params` and handed on; an
    /// error is handed on and leaves the cache as it is.
    pub fn record_fetch(
        &mut self,
        params: DocsRsParams,
        fetched: Result<DocContent, DocsFetchError>,
    ) -> (outcome: Result<DocContent, DocsFetchError>)
        ensures
            match fetched {
                Ok(content) => {
                    &&& outcome matches Ok(handed)
                    &&& handed@ == content@
                    &&& final(self).table() == old(self).table().insert(params@, content@)
                },
                Err(error) => {
                    &&& outcome matches Err(handed)
                    &&& handed@ == error@
                    &&& final(self).table() == old(self).table()
                },
            },
    {
        match fetched {
            Ok(content) => {
                self.cache.insert(params, content.clone());
                Ok(content)
            },
            Err(error) => Err(error),
        }
    }
}

} // verus!
