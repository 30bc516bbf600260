//! Assembly of the API object from its parts: the setting engine and the
//! media engine, each given or made by default, and an optional
//! interceptor. `S`, `M` and `I` are the types of the three parts.
use vstd::prelude::*;

verus! {

/// The parts an API is built from.
pub struct ApiBuilder<S, M, I> {
    setting_engine: Option<S>,
    media_engine: Option<M>,
    interceptor: Option<I>,
}

/// The API: its setting engine, media engine and interceptor.
pub struct Api<S, M, I> {
    pub setting_engine: S,
    pub media_engine: M,
    pub interceptor: Option<I>,
}

impl<S: Default, M: Default, I> ApiBuilder<S, M, I> {
    /// The setting engine given, if one was.
    pub closed spec fn spec_setting_engine(&self) -> Option<S> {
        self.setting_engine
    }

    /// The media engine given, if one was.
    pub closed spec fn spec_media_engine(&self) -> Option<M> {
        self.media_engine
    }

    /// The interceptor given, if one was.
    pub closed spec fn spec_interceptor(&self) -> Option<I> {
        self.interceptor
    }

    /// A builder with no part given.
    pub fn new() -> (r: Self)
        ensures
            r.spec_setting_engine() is None,
            r.spec_media_engine() is None,
            r.spec_interceptor() is None,
    {
        ApiBuilder { setting_engine: None, media_engine: None, interceptor: None }
    }

    /// Gives the setting engine.
    pub fn with_setting_engine(self, setting_engine: S) -> (r: Self)
        ensures
            r.spec_setting_engine() == Some(setting_engine),
            r.spec_media_engine() == self.spec_media_engine(),
            r.spec_interceptor() == self.spec_interceptor(),
    {
        ApiBuilder { setting_engine: Some(setting_engine), ..self }
    }

    /// Gives the media engine.
    pub fn with_media_engine(self, media_engine: M) -> (r: Self)
        ensures
            r.spec_setting_engine() == self.spec_setting_engine(),
            r.spec_media_engine() == Some(media_engine),
            r.spec_interceptor() == self.spec_interceptor(),
    {
        ApiBuilder { media_engine: Some(media_engine), ..self }
    }

    /// Gives the interceptor.
    pub fn with_interceptor(self, interceptor: I) -> (r: Self)
        ensures
            r.spec_setting_engine() == self.spec_setting_engine(),
            r.spec_media_engine() == self.spec_media_engine(),
            r.spec_interceptor() == Some(interceptor),
    {
        ApiBuilder { interceptor: Some(interceptor), ..self }
    }

    /// The API: the parts given, a default engine for each engine not given.
    pub fn build(self) -> (r: Api<S, M, I>)
        ensures
            self.spec_setting_engine() matches Some(s) ==> r.setting_engine == s,
            self.spec_media_engine() matches Some(m) ==> r.media_engine == m,
            r.interceptor == self.spec_interceptor(),
    {
        let setting_engine = match self.setting_engine {
            Some(s) => s,
            None => S::default(),
        };
        let media_engine = match self.media_engine {
            Some(m) => m,
            None => M::default(),
        };
        Api { setting_engine, media_engine, interceptor: self.interceptor }
    }
}

} // verus!
