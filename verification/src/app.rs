//! The application shell: owns the route table, the shared application data
//! and the address to serve on. Routes are registered here during setup;
//! the embedding program then takes the parts apart and runs the accept loop,
//! which is plain I/O and lives outside this library.
use vstd::prelude::*;

use crate::routes::Routes;
use crate::text::split_on;
use crate::HttpMethod;

verus! {

/// An application under construction: a route table, an opaque shared context
/// value handed to every handler, and the address to listen on.
pub struct App<T, C> {
    routes: Routes<C>,
    application_data: T,
    ip: String,
}

impl<T, C> App<T, C> {
    /// The route table registered so far.
    pub closed spec fn spec_routes(&self) -> Routes<C> {
        self.routes
    }

    /// The shared context value.
    pub closed spec fn spec_data(&self) -> T {
        self.application_data
    }

    /// The address to listen on.
    pub closed spec fn spec_ip(&self) -> Seq<char> {
        self.ip@
    }

    /// An application with an empty route table, serving `application_data`
    /// to every handler, to listen on `ip`.
    pub fn new(ip: &str, application_data: T) -> (r: App<T, C>)
        ensures
            r.spec_routes().bucket(HttpMethod::Get) =~= Seq::<crate::routes::Route<C>>::empty(),
            r.spec_routes().bucket(HttpMethod::Post) =~= Seq::<crate::routes::Route<C>>::empty(),
            r.spec_routes().fallback() is None,
            r.spec_data() == application_data,
            r.spec_ip() == ip@,
    {
        App { routes: Routes::new(), ip: ip.to_owned(), application_data }
    }

    /// Register a handler for `GET` requests at a template.
    pub fn get(&mut self, url: &str, controller: C)
        ensures
            final(self).spec_routes().bucket(HttpMethod::Get) == old(self).spec_routes().bucket(
                HttpMethod::Get,
            ).push(final(self).spec_routes().bucket(HttpMethod::Get).last()),
            final(self).spec_routes().bucket(HttpMethod::Get).last().segments() == split_on(
                url@,
                seq!['/'],
            ),
            final(self).spec_routes().bucket(HttpMethod::Get).last().spec_controller()
                == controller,
            final(self).spec_routes().bucket(HttpMethod::Post) == old(self).spec_routes().bucket(
                HttpMethod::Post,
            ),
            final(self).spec_routes().fallback() == old(self).spec_routes().fallback(),
            final(self).spec_data() == old(self).spec_data(),
            final(self).spec_ip() == old(self).spec_ip(),
    {
        self.routes.register_route(HttpMethod::Get, url.to_owned(), controller);
    }

    /// Register a handler for `POST` requests at a template.
    pub fn post(&mut self, url: &str, controller: C)
        ensures
            final(self).spec_routes().bucket(HttpMethod::Post) == old(self).spec_routes().bucket(
                HttpMethod::Post,
            ).push(final(self).spec_routes().bucket(HttpMethod::Post).last()),
            final(self).spec_routes().bucket(HttpMethod::Post).last().segments() == split_on(
                url@,
                seq!['/'],
            ),
            final(self).spec_routes().bucket(HttpMethod::Post).last().spec_controller()
                == controller,
            final(self).spec_routes().bucket(HttpMethod::Get) == old(self).spec_routes().bucket(
                HttpMethod::Get,
            ),
            final(self).spec_routes().fallback() == old(self).spec_routes().fallback(),
            final(self).spec_data() == old(self).spec_data(),
            final(self).spec_ip() == old(self).spec_ip(),
    {
        self.routes.register_route(HttpMethod::Post, url.to_owned(), controller);
    }

    /// Install the fallback handler, invoked for every request that matches
    /// no registered route.
    pub fn set_fallback(&mut self, controller: C)
        ensures
            final(self).spec_routes().fallback() is Some,
            final(self).spec_routes().fallback()->0.spec_controller() == controller,
            forall|m: HttpMethod|
                final(self).spec_routes().bucket(m) == old(self).spec_routes().bucket(m),
            final(self).spec_data() == old(self).spec_data(),
            final(self).spec_ip() == old(self).spec_ip(),
    {
        self.routes.set_not_found_route(controller);
    }

    /// The route table registered so far.
    pub fn routes(&self) -> (r: &Routes<C>)
        ensures
            *r == self.spec_routes(),
    {
        &self.routes
    }

    /// The shared context value handed to every handler.
    pub fn application_data(&self) -> (r: &T)
        ensures
            *r == self.spec_data(),
    {
        &self.application_data
    }

    /// The address to listen on.
    pub fn ip(&self) -> (r: &str)
        ensures
            r@ == self.spec_ip(),
    {
        self.ip.as_str()
    }

    /// Take the application apart for serving: the route table, the shared
    /// context and the address, for the embedding accept loop to own.
    pub fn into_parts(self) -> (r: (Routes<C>, T, String))
        ensures
            r.0 == self.spec_routes(),
            r.1 == self.spec_data(),
            r.2@ == self.spec_ip(),
    {
        let App { routes, application_data, ip } = self;
        (routes, application_data, ip)
    }
}

} // verus!
