# kosmos_explorer

The verified core of a desktop explorer for OpenCloud servers: it keeps the
list of configured clouds, reads the replies of the Graph API and of WebDAV
`PROPFIND`, and runs the decisions of the OpenID Connect login with PKCE.

- `src/` is the library, verified with Verus:
  - `cloud.rs`: the records shown to the user and the cloud registry;
  - `graph.rs`: Graph API URLs, status checks, user and space lists;
  - `webdav.rs`: WebDAV URLs, status checks, XML fields, folder listings;
  - `oidc.rs`: discovery and authorization URLs, PKCE, the callback;
  - `window.rs`: navigation checks, titles and labels of document windows;
  - `order.rs`: the stable ordering that listings are sorted with;
  - `text.rs`: character-level string operations and their specifications;
  - `bindings.rs`: the calls into `urlencoding`, `base64`, `sha2`, `rand`,
    `url`, `serde_json` and the parts of `std` without a specification.
- `app/` is the Tauri shell: windows, commands, HTTP, the callback server
  and persistence of the cloud list.
- `tests/` exercise the library on concrete values.
