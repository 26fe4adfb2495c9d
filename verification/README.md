# forecast_contract

The logic of a forecasting agent that answers a question with a structured
Forecast Brief (summary, probability, reasoning, sources, metadata), with
its behaviour stated in Verus contracts and proved.

- `src/` — the verified library:
  - `text.rs`: Unicode trimming, truncation with an ellipsis, code-fence
    stripping of model replies;
  - `number.rs`: the float-literal grammar of `f64::from_str`, percentage
    strings such as `"55%"`, decimal rendering;
  - `scan.rs`: the `NN%`-near-a-probability-word scan of free text;
  - `json.rs`: a plain model of JSON values and the serde_json parses into it;
  - `reply.rs`: reading a model reply into brief fields;
  - `brief.rs`, `forecast.rs`: the request and brief types, placeholder,
    fallback and model-built briefs;
  - `openrouter.rs`: the decisions of the model path (secrets map name, API
    key, request, reply reading, fallback);
  - `hash.rs`: FNV-1a seeds.
- `app/` — the JSON edge (serde types, probabilities in floating point) and
  the driver of the host calls (KV store, HTTP, logging).
- `tests/` — tests of the library.
