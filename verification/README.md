# subaru_web_ql

The logic of SubaruWebQL, a quick-look web service for Subaru telescope
datasets, as a Verus-verified library, with the web daemon around it.

- `src/text.rs`: Unicode whitespace trimming, scan_fmt-style decimal
  scanning (`{d}`, `C{d}`), decimal printing, and their laws.
- `src/dataset.rs`: a dataset's metadata and how one VOTable cell or
  FIELD attribute changes it.
- `src/votable.rs`: reading a VOTable's XML events (from the `xml` crate)
  into a dataset.
- `src/page.rs`: request checking, cache file names and the quick-look page.
- `src/cache.rs`: the datasets seen so far, keyed by data id, and the page
  request (`execute_subaru`) with its laws.
- `app/main.rs`: the Iron server, the downloads and file access.
