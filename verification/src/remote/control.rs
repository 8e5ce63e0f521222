//! The steps from a server's address to an open recording.

use crate::message::text::{self, push_decimal};
use crate::remote::catalog::{CatalogResponse, ResponseContent};
use crate::remote::client::{self, RemoteApiClient, RemoteClientError, RequestGeneration};
use vstd::prelude::*;
use vstd::string::*;

verus! {

/// What a selection holds: the server, the catalog that was loaded from it, and the number of the
/// latest request.
pub struct SelectionContent {
    pub client: Option<Seq<char>>,
    pub catalog: Option<ResponseContent>,
    pub generation: u64,
}

impl SelectionContent {
    /// The selection once a server was chosen. A catalog of another one is dropped.
    pub open spec fn connected(self, client: Seq<char>) -> Self {
        SelectionContent { client: Some(client), catalog: None, ..self }
    }

    /// The selection once a request was started.
    pub open spec fn requested(self) -> Self {
        SelectionContent { generation: client::next_request(self.generation), ..self }
    }

    /// The selection once a catalog arrived for a request. One for an earlier request is dropped.
    pub open spec fn with_catalog(self, generation: u64, catalog: ResponseContent) -> Self {
        if self.generation == generation {
            SelectionContent { catalog: Some(catalog), ..self }
        } else {
            self
        }
    }
}

/// The server that the user chose, and what it said of a recording.
#[derive(Debug)]
pub struct RemoteSelection {
    generation: RequestGeneration,
    client: Option<RemoteApiClient>,
    catalog: Option<CatalogResponse>,
}

impl Default for RemoteSelection {
    fn default() -> (selection: Self)
        ensures
            selection.content() == (SelectionContent {
                client: None,
                catalog: None,
                generation: 0,
            }),
    {
        RemoteSelection { generation: RequestGeneration::default(), client: None, catalog: None }
    }
}

impl RemoteSelection {
    pub closed spec fn content(&self) -> SelectionContent {
        SelectionContent {
            client: match self.client {
                Some(client) => Some(client@),
                None => None,
            },
            catalog: match self.catalog {
                Some(catalog) => Some(catalog@),
                None => None,
            },
            generation: self.generation.latest(),
        }
    }

    /// Chooses the server at an address.
    pub fn connect(&mut self, base_url: &str) -> (outcome: Result<(), RemoteClientError>)
        ensures
            ({
                let url = client::without_end_slashes(base_url@);
                match outcome {
                    Ok(_) => url.len() > 0 && final(self).content() == old(self).content().connected(
                        url,
                    ),
                    Err(error) => {
                        &&& url.len() == 0
                        &&& error@ == "remote server URL is empty"@
                        &&& final(self).content() == old(self).content()
                    },
                }
            }),
    {
        let client: RemoteApiClient = RemoteApiClient::new(base_url)?;
        self.client = Some(client);
        self.catalog = None;
        Ok(())
    }

    /// Starts a request to the server, if one was chosen. What earlier ones bring is stale.
    pub fn begin_request(&mut self) -> (request: Option<(RemoteApiClient, u64)>)
        ensures
            match request {
                Some((client, generation)) => {
                    &&& old(self).content().client == Some(client@)
                    &&& final(self).content() == old(self).content().requested()
                    &&& generation == final(self).content().generation
                },
                None => old(self).content().client is None && final(self).content() == old(
                    self
                ).content(),
            },
    {
        let client: RemoteApiClient = match &self.client {
            Some(client) => client.copy(),
            None => return None,
        };
        let generation: u64 = self.generation.next();
        Some((client, generation))
    }

    /// Whether what a request brought is still wanted.
    pub fn is_current(&self, generation: u64) -> (current: bool)
        ensures
            current == (self.content().generation == generation),
    {
        self.generation.is_current(generation)
    }

    /// Keeps the catalog that a request brought, if it is still wanted.
    pub fn apply_catalog(&mut self, generation: u64, catalog: CatalogResponse) -> (applied: bool)
        ensures
            applied == (old(self).content().generation == generation),
            final(self).content() == old(self).content().with_catalog(generation, catalog@),
    {
        if !self.generation.is_current(generation) {
            return false;
        }
        self.catalog = Some(catalog);
        true
    }

    /// Forgets the catalog, as another recording was chosen.
    pub fn choose_recording(&mut self)
        ensures
            final(self).content() == (SelectionContent { catalog: None, ..old(self).content() }),
    {
        self.catalog = None;
    }

    /// What to open: the server and the catalog that was loaded from it.
    pub fn to_open(&self) -> (found: Option<(&RemoteApiClient, &CatalogResponse)>)
        ensures
            match found {
                Some((client, catalog)) => self.content().client == Some(client@)
                    && self.content().catalog == Some(catalog@),
                None => self.content().client is None || self.content().catalog is None,
            },
    {
        match (&self.client, &self.catalog) {
            (Some(client), Some(catalog)) => Some((client, catalog)),
            _ => None,
        }
    }
}

/// The words once a server listed its recordings.
pub fn connected_words(recordings: usize) -> (words: String)
    ensures
        words@ == "Connected · "@ + text::decimal(recordings as nat) + " recording(s)"@,
{
    let mut words: String = "Connected · ".to_owned();
    push_decimal(&mut words, recordings as u64);
    words.append(" recording(s)");
    words
}

/// A catalog that an earlier request brought never takes the place of anything.
pub proof fn law_stale_catalogs_are_dropped(
    selection: SelectionContent,
    generation: u64,
    catalog: ResponseContent,
)
    requires
        generation == selection.generation,
    ensures
        selection.requested().with_catalog(generation, catalog) == selection.requested(),
{
}

} // verus!
