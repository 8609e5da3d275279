# ikigai-shacl

SHACL validation of an RDF graph against a shapes graph, as a verified library. The engine is
the `shacl` crate; what surrounds it is written in Verus and proved.

- Data and shapes are Turtle. A report comes as an outcome (who violates what), as a full report
  with messages and values, as JSON, or as a graph in Turtle.
- The report as a value is sorted and does not depend on the order in which the engine finds
  violations.
- The report as a graph has no blank nodes. Each one is named under `urn:ikigai:shacl:report:` by
  the content address of the graph and an injective encoding of its label. Results are written in
  order, so that the names do not depend on the order in which they were found. A graph that
  already holds an IRI under that prefix is refused.
- The same data and shapes, validated twice, mint the same names as long as no blank node without
  a label enters the report. A property shape in brackets does, as the source shape of its
  results: each reading gives it a new label, and the label is part of what the content address is
  taken of. Shapes and nodes that are to keep their names across runs have an IRI or a written
  label. One report, however often it is written, always has the same names; the kernel, which
  keeps an answer to a request, hands out the same names in that way too.
- The engine does not return on every graph. What it cannot take is found beforehand and refused,
  with an error that says why.

## Layout

- `src/` holds the library. `text`, `order`, `walk`, `term`, `json`, `label` and `canonical` are
  plain data; `rdf`, `graph`, `finding` and `engine` state what is taken from other crates;
  `facts`, `query` and `limits` say which graphs the engine can take; `template`, `report`, `arrange`, `skolem`,
  `turtle`, `face` and `endpoint` are the rules; `decode`, `roundtrip` and `laws` hold what is
  proved of them together.
- `tests/` runs the library with the real engine.
- `app/` binds the library to the kernel: the endpoint, fetching of shapes, and copies of the
  types that can be serialized.

Contracts are stated over characters, sequences and sets. Where the engine may answer in more
than one way, as with blank node labels, a name stands for the set of its possible answers.

## Dependencies

`shacl`, `rudof_rdf`, `rudof_iri` and `sparql_service` are part of a family of crates that is
released together and whose members ask for each other by a range. `mie`, `prefixmap`,
`rudof_config`, `rudof_typing` and `rudof_viz` are not called here; they are named to hold the
whole family to the one release that the contracts were written against, since members of
different releases do not build together.
