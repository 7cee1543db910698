# moirai

Configuration of an HAProxy load balancer from the metadata of the instance that it runs on.

The library, in `src/`, is verified with Verus:

- `designation` and `portmap` read the port map: which services to offer, to which backends, with
  which health checks. `format` says how services are written, and proves that reading a port map
  gives back the services that were written into it.
- `metadata` reads the other values: limits, flags, timeouts, the syslog endpoint.
- `render` makes the text of the configuration files, and `configure` puts the candidate together
  and decides whether it goes live. A proof there shows that going live leaves the files of the
  candidate and no others.
- `supervision` decides what to do about the HAProxy service.
- `service`, `limits`, `number` and `text` hold what these share.

`app/` runs the programs and reads and writes the files. `tests/` runs the library on examples.
