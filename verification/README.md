# scraperr

A web-scraping job service. Users submit jobs (a URL, the elements to extract as CSS or
XPath selectors, and options such as multi-page scraping and custom headers); a background
worker fetches the pages, extracts the elements and stores the results; users read, update,
download (CSV or Markdown) and schedule their jobs, see per-day statistics, and talk to an
AI assistant. Users sign in through an OpenID Connect provider.

## Layout

- `src/` is the library, verified with Verus:
  - `text`, `json`, `time`, `ids`: strings, JSON values, instants and identifiers, with
    their specifications;
  - `selector`, `dom`, `extract`: parsing selectors, querying the parsed HTML tree, and
    extracting the elements of a job from a page;
  - `scrape`: the state of a running job, from one fetched page to the next action;
  - `domain`, `entities`: the job, user and schedule types and the stored rows;
  - `services`: the decisions of the job, user, schedule, statistics and AI services;
  - `api`: errors and their answers, configuration, authentication, exports, and the
    HTTP and gRPC services' decisions.
- `app/` is the server around it: the HTTP routes, the database tables and queries, the
  schema migration, the worker loops, the token validation and the calls to the AI
  provider.
- `tests/` exercises the library on concrete values.
