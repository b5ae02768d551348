# whois_president

A verified library, with the programs around it, that looks for the domain names that
candidates to the 2022 French presidential election may have registered.

- `src/domains.rs`: the domain names a candidate's name suggests, and those still to add.
- `src/afnic.rs`, `src/afilias.rs`, `src/whois.rs`: reading the answers of the AFNIC (`.fr`)
  and Afilias (`.info`) WHOIS servers.
- `src/fib.rs`, `src/lookup.rs`: the Fibonacci back-off between lookups and what follows each.
- `src/model.rs`: the candidates and their domain names.
- `src/text.rs`: the text handling the above rests on (lines, trimming, white space).
- `app/`: the three programs (`generate-domains`, `lookup`, `rest-api`) that read and write
  the MongoDB database, query WHOIS servers and serve HTTP.
